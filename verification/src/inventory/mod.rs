//! The inventory of an entity: its own built-in slots, followed by the slots
//! that equipped items (bags) provide.
use vstd::prelude::*;

pub mod item;
pub mod laws;
pub mod loadout;
pub mod recipe;
pub mod seqs;
pub mod slot;
pub mod trade_pricing;

use item::{all_none, def_eq, emptied, kind_is_stackable, opt_ref, same_def, somes, with_amount, Item, ItemDef, MaterialStatManifest};
use loadout::{layout, layout_index, loadout_wf, opt_slots, sections_of, Loadout, LoadoutSlot, LOADOUT_LEN, MAX_SECTION_LEN};
use recipe::{matches_input, Recipe, RecipeInput};
use seqs::{count_none, count_some, flat, offset};
use slot::{slot_holds, EquipSlot, InvSlotId, LoadoutSlotId, Slot, SlotError, SlotId};

verus! {

/// Number of built-in slots of a new inventory.
pub const DEFAULT_INVENTORY_SLOTS: usize = 18;

pub type InvSlot = Option<Item>;

#[derive(Debug)]
pub struct Inventory {
    loadout: Loadout,
    /// The "built-in" slots belonging to the inventory itself, all other slots
    /// are provided by equipped items
    slots: Vec<InvSlot>,
}

/// Errors which the methods on `Inventory` produce
#[derive(Debug)]
pub enum Error {
    /// The inventory is full and items could not be added. The extra items have
    /// been returned.
    Full(Vec<Item>),
}

/// What happened to an inventory, as reported to its owner.
#[derive(Debug, PartialEq)]
pub enum InventoryUpdateEvent {
    Init,
    Used,
    Consumed(String),
    Gave,
    Given,
    Swapped,
    Dropped,
    Collected(Item),
    CollectFailed,
    Possession,
    Debug,
    Craft,
}

impl Default for InventoryUpdateEvent {
    fn default() -> (r: Self)
        ensures
            r == InventoryUpdateEvent::Init,
    {
        InventoryUpdateEvent::Init
    }
}

/// `a` is a copy of the event `b`: the same event, where a collected item is
/// copied with its definition, amount and number of slots.
pub open spec fn event_copy(a: InventoryUpdateEvent, b: InventoryUpdateEvent) -> bool {
    match b {
        InventoryUpdateEvent::Collected(it) => match a {
            InventoryUpdateEvent::Collected(x) => def_eq(x.item_def, it.item_def) && x.amount == it.amount
                && x.slots@.len() == it.slots@.len(),
            _ => false,
        },
        _ => a == b,
    }
}

/// An update of an inventory, carrying what happened.
#[derive(Debug)]
pub struct InventoryUpdate {
    event: InventoryUpdateEvent,
}

impl Default for InventoryUpdate {
    fn default() -> (r: Self)
        ensures
            r.spec_event() == InventoryUpdateEvent::Init,
    {
        InventoryUpdate { event: InventoryUpdateEvent::Init }
    }
}

impl InventoryUpdate {
    /// The event carried.
    pub closed spec fn spec_event(&self) -> InventoryUpdateEvent {
        self.event
    }

    pub fn new(event: InventoryUpdateEvent) -> (r: Self)
        ensures
            r.spec_event() == event,
    {
        Self { event }
    }

    /// A copy of the event carried.
    pub fn event(&self) -> (r: InventoryUpdateEvent)
        ensures
            event_copy(r, self.spec_event()),
    {
        match &self.event {
            InventoryUpdateEvent::Init => InventoryUpdateEvent::Init,
            InventoryUpdateEvent::Used => InventoryUpdateEvent::Used,
            InventoryUpdateEvent::Consumed(s) => InventoryUpdateEvent::Consumed(s.clone()),
            InventoryUpdateEvent::Gave => InventoryUpdateEvent::Gave,
            InventoryUpdateEvent::Given => InventoryUpdateEvent::Given,
            InventoryUpdateEvent::Swapped => InventoryUpdateEvent::Swapped,
            InventoryUpdateEvent::Dropped => InventoryUpdateEvent::Dropped,
            InventoryUpdateEvent::Collected(it) => InventoryUpdateEvent::Collected(it.copy()),
            InventoryUpdateEvent::CollectFailed => InventoryUpdateEvent::CollectFailed,
            InventoryUpdateEvent::Possession => InventoryUpdateEvent::Possession,
            InventoryUpdateEvent::Debug => InventoryUpdateEvent::Debug,
            InventoryUpdateEvent::Craft => InventoryUpdateEvent::Craft,
        }
    }
}

/// Same loadout layout, same equipped items (definition and amount) and the
/// same number of slots in every section; only slot contents may differ.
pub open spec fn frame_same(a: &Inventory, b: &Inventory) -> bool {
    &&& a.base().len() == b.base().len()
    &&& a.equipment().len() == b.equipment().len()
    &&& forall|k: int|
        #![trigger a.equipment()[k]]
        #![trigger b.equipment()[k]]
        0 <= k < a.equipment().len() ==> {
            &&& a.equipment()[k].equip_slot == b.equipment()[k].equip_slot
            &&& (a.equipment()[k].slot is Some <==> b.equipment()[k].slot is Some)
            &&& a.equipment()[k].slot is Some ==> {
                &&& a.equipment()[k].slot.unwrap().item_def == b.equipment()[k].slot.unwrap().item_def
                &&& a.equipment()[k].slot.unwrap().amount == b.equipment()[k].slot.unwrap().amount
                &&& a.equipment()[k].slot.unwrap().slots@.len() == b.equipment()[
                    k
                ].slot.unwrap().slots@.len()
            }
        }
}

/// Position `p` of `s` is the first slot holding an item of `item`'s definition.
pub open spec fn first_match_at(s: Seq<Option<Item>>, item: Item, p: int) -> bool {
    &&& 0 <= p < s.len()
    &&& s[p] is Some
    &&& same_def(s[p].unwrap(), item)
    &&& forall|q: int| 0 <= q < p ==> !((#[trigger] s[q]) is Some && same_def(s[q].unwrap(), item))
}

pub open spec fn has_match(s: Seq<Option<Item>>, item: Item) -> bool {
    exists|q: int| 0 <= q < s.len() && (#[trigger] s[q]) is Some && same_def(s[q].unwrap(), item)
}

/// Position `p` of `s` is the first empty slot.
pub open spec fn first_none_at(s: Seq<Option<Item>>, p: int) -> bool {
    &&& 0 <= p < s.len()
    &&& s[p] is None
    &&& forall|q: int| 0 <= q < p ==> (#[trigger] s[q]) is Some
}

pub open spec fn has_none(s: Seq<Option<Item>>) -> bool {
    exists|q: int| 0 <= q < s.len() && (#[trigger] s[q]) is None
}

/// The first position holding an item of `item`'s definition.
pub open spec fn first_match_pos(s: Seq<Option<Item>>, item: Item) -> int {
    choose|p: int| first_match_at(s, item, p)
}

/// The first empty position.
pub open spec fn first_none_pos(s: Seq<Option<Item>>) -> int {
    choose|p: int| first_none_at(s, p)
}

/// Adding `stored` (an item of `item`'s definition and amount) to the slots
/// `s`: a stackable item joins the first stack of its definition when the
/// amounts fit together, and is refused when they do not; any other item
/// takes the first empty slot, and is refused when there is none. Gives the
/// new slots and the refused item, if any.
pub open spec fn push_spec(s: Seq<Option<Item>>, item: Item, stored: Item) -> (Seq<Option<Item>>, Option<Item>) {
    if kind_is_stackable(item.item_def.kind) && has_match(s, item) {
        let p = first_match_pos(s, item);
        let x = s[p].unwrap();
        if x.amount + item.amount <= u32::MAX {
            (s.update(p, Some(with_amount(x, (x.amount + item.amount) as u32))), None)
        } else {
            (s, Some(item))
        }
    } else if has_none(s) {
        (s.update(first_none_pos(s), Some(stored)), None)
    } else {
        (s, Some(item))
    }
}

pub open spec fn opt_seq(o: Option<Item>) -> Seq<Item> {
    match o {
        Some(it) => seq![it],
        None => Seq::empty(),
    }
}

/// Adding `items` one after another; gives the new slots and the refused
/// items in order.
pub open spec fn push_all_spec(s: Seq<Option<Item>>, items: Seq<Item>) -> (Seq<Option<Item>>, Seq<Item>)
    decreases items.len(),
{
    if items.len() == 0 {
        (s, Seq::empty())
    } else {
        let (s1, l1) = push_all_spec(s, items.drop_last());
        let (s2, r) = push_spec(s1, items.last(), items.last());
        (s2, l1 + opt_seq(r))
    }
}

/// Adding each item whose definition is not yet present; gives the new slots
/// and the refused items in order.
pub open spec fn push_all_unique_spec(s: Seq<Option<Item>>, items: Seq<Item>) -> (Seq<Option<Item>>, Seq<Item>)
    decreases items.len(),
{
    if items.len() == 0 {
        (s, Seq::empty())
    } else {
        let (s1, l1) = push_all_unique_spec(s, items.drop_last());
        if has_match(s1, items.last()) {
            (s1, l1)
        } else {
            let (s2, r) = push_spec(s1, items.last(), items.last());
            (s2, l1 + opt_seq(r))
        }
    }
}

/// Total amount held in slots whose item has the definition `id`.
pub open spec fn amount_of(s: Seq<Option<Item>>, id: Seq<char>) -> nat
    decreases s.len(),
{
    if s.len() == 0 {
        0
    } else {
        amount_of(s.drop_last(), id) + match s.last() {
            Some(it) => if it.item_def.item_definition_id@ == id { it.amount as nat } else { 0nat },
            None => 0nat,
        }
    }
}

/// An item whose own slot count, and that of every item it holds, has an
/// inventory slot address.
pub open spec fn item_fits(it: Item) -> bool {
    &&& it.slots@.len() <= MAX_SECTION_LEN
    &&& forall|i: int|
        0 <= i < it.slots@.len() && (#[trigger] it.slots@[i]) is Some ==> it.slots@[i].unwrap().slots@.len()
            <= MAX_SECTION_LEN
}

pub open spec fn opt_fits(o: Option<Item>) -> bool {
    match o {
        Some(it) => item_fits(it),
        None => true,
    }
}

/// `post` keeps `pre`'s layout and equipped items, except that loadout entry
/// `k` now holds (a version, with the same definition, amount and slot count,
/// of) `x`.
pub open spec fn frame_after(pre: &Inventory, post: &Inventory, k: int, x: Option<Item>) -> bool {
    &&& post.base().len() == pre.base().len()
    &&& post.equipment().len() == pre.equipment().len()
    &&& forall|q: int|
        #![trigger post.equipment()[q]]
        0 <= q < pre.equipment().len() ==> {
            let want = if q == k { x } else { pre.equipment()[q].slot };
            &&& post.equipment()[q].equip_slot == pre.equipment()[q].equip_slot
            &&& (post.equipment()[q].slot is Some <==> want is Some)
            &&& want is Some ==> {
                &&& post.equipment()[q].slot.unwrap().item_def == want.unwrap().item_def
                &&& post.equipment()[q].slot.unwrap().amount == want.unwrap().amount
                &&& post.equipment()[q].slot.unwrap().slots@.len() == want.unwrap().slots@.len()
            }
        }
}

/// Every item of `somes(s)` sits in some slot of `s`.
pub proof fn lemma_somes_members(s: Seq<Option<Item>>)
    ensures
        forall|i: int|
            0 <= i < somes(s).len() ==> exists|j: int| 0 <= j < s.len() && s[j] == Some(#[trigger] somes(s)[i]),
    decreases s.len(),
{
    if s.len() > 0 {
        lemma_somes_members(s.drop_last());
        let t = s.drop_last();
        assert forall|i: int| 0 <= i < somes(s).len() implies exists|j: int| 0 <= j < s.len() && s[j] == Some(#[trigger] somes(s)[i]) by {
            if i < somes(t).len() {
                let j = choose|j: int| 0 <= j < t.len() && t[j] == Some(somes(t)[i]);
                assert(s[j] == t[j]);
            } else {
                assert(s[s.len() - 1] == Some(somes(s)[i]));
            }
        }
    }
}

pub proof fn lemma_first_match(s: Seq<Option<Item>>, item: Item)
    requires
        has_match(s, item),
    ensures
        first_match_at(s, item, first_match_pos(s, item)),
        forall|p: int| first_match_at(s, item, p) ==> p == first_match_pos(s, item),
{
    let w = choose|q: int| 0 <= q < s.len() && (#[trigger] s[q]) is Some && same_def(s[q].unwrap(), item);
    lemma_min_match(s, item, w);
    let p = first_match_pos(s, item);
    assert forall|p2: int| first_match_at(s, item, p2) implies p2 == p by {
        if p2 < p {
            assert(!(s[p2] is Some && same_def(s[p2].unwrap(), item)));
        }
        if p < p2 {
            assert(!(s[p] is Some && same_def(s[p].unwrap(), item)));
        }
    }
}

proof fn lemma_min_match(s: Seq<Option<Item>>, item: Item, w: int)
    requires
        0 <= w < s.len(),
        s[w] is Some && same_def(s[w].unwrap(), item),
    ensures
        exists|p: int| first_match_at(s, item, p),
    decreases w,
{
    if forall|q: int| 0 <= q < w ==> !((#[trigger] s[q]) is Some && same_def(s[q].unwrap(), item)) {
        assert(first_match_at(s, item, w));
    } else {
        let w2 = choose|q: int| 0 <= q < w && (#[trigger] s[q]) is Some && same_def(s[q].unwrap(), item);
        lemma_min_match(s, item, w2);
    }
}

pub proof fn lemma_first_none(s: Seq<Option<Item>>)
    requires
        has_none(s),
    ensures
        first_none_at(s, first_none_pos(s)),
        forall|p: int| first_none_at(s, p) ==> p == first_none_pos(s),
{
    let w = choose|q: int| 0 <= q < s.len() && (#[trigger] s[q]) is None;
    lemma_min_none(s, w);
    let p = first_none_pos(s);
    assert forall|p2: int| first_none_at(s, p2) implies p2 == p by {
        if p2 < p {
            assert(s[p2] is Some);
        }
        if p < p2 {
            assert(s[p] is Some);
        }
    }
}

proof fn lemma_min_none(s: Seq<Option<Item>>, w: int)
    requires
        0 <= w < s.len(),
        s[w] is None,
    ensures
        exists|p: int| first_none_at(s, p),
    decreases w,
{
    if forall|q: int| 0 <= q < w ==> (#[trigger] s[q]) is Some {
        assert(first_none_at(s, w));
    } else {
        let w2 = choose|q: int| 0 <= q < w && (#[trigger] s[q]) is None;
        lemma_min_none(s, w2);
    }
}

/// Adding an item fills at most one empty slot, and an item that does not
/// stack always finds an empty slot when there is one.
pub proof fn lemma_push_count(s: Seq<Option<Item>>, item: Item, stored: Item)
    ensures
        push_spec(s, item, stored).0.len() == s.len(),
        count_none(push_spec(s, item, stored).0) + 1 >= count_none(s),
        !kind_is_stackable(item.item_def.kind) && count_none(s) > 0 ==> push_spec(s, item, stored).1 is None
            && count_none(push_spec(s, item, stored).0) + 1 == count_none(s),
{
    if kind_is_stackable(item.item_def.kind) && has_match(s, item) {
        lemma_first_match(s, item);
        let p = first_match_pos(s, item);
        let x = s[p].unwrap();
        if x.amount + item.amount <= u32::MAX {
            seqs::lemma_count_update(s, p, Some(with_amount(x, (x.amount + item.amount) as u32)));
        }
    } else if has_none(s) {
        lemma_first_none(s);
        seqs::lemma_count_update(s, first_none_pos(s), Some(stored));
    } else if count_none(s) > 0 {
        let p = seqs::lemma_count_none_pos(s);
        assert(s[p] is None);
    }
}

/// Adding `items` one by one fills at most one empty slot per item.
pub proof fn lemma_push_all_count(s: Seq<Option<Item>>, items: Seq<Item>)
    ensures
        push_all_spec(s, items).0.len() == s.len(),
        count_none(push_all_spec(s, items).0) + items.len() >= count_none(s),
    decreases items.len(),
{
    if items.len() > 0 {
        lemma_push_all_count(s, items.drop_last());
        lemma_push_count(push_all_spec(s, items.drop_last()).0, items.last(), items.last());
    }
}

/// `somes(s)` has one item per occupied slot.
pub proof fn lemma_somes_len(s: Seq<Option<Item>>)
    ensures
        somes(s).len() == count_some(s),
    decreases s.len(),
{
    if s.len() > 0 {
        lemma_somes_len(s.drop_last());
    }
}

/// What the ingredient `input` claims while walking the slots `s` up to
/// position `p`, starting from the claims `c0` (per position) with `needed0`
/// items needed: each matching slot gives what it has left, up to what is
/// still needed. Gives the claims after, what is still needed, and whether
/// any slot matched.
pub open spec fn claim_scan(
    s: Seq<Option<Item>>,
    input: RecipeInput,
    needed0: u32,
    c0: Seq<Option<u32>>,
    p: int,
) -> (Seq<Option<u32>>, u32, bool)
    decreases p,
{
    if p <= 0 {
        (c0, needed0, false)
    } else {
        let prev = claim_scan(s, input, needed0, c0, p - 1);
        let q = p - 1;
        if s[q] is Some && matches_input(s[q].unwrap(), input) {
            let claim: u32 = match prev.0[q] {
                Some(x) => x,
                None => 0,
            };
            let avail = s[q].unwrap().amount - claim;
            let can = if avail < prev.1 {
                avail
            } else {
                prev.1 as int
            };
            (prev.0.update(q, Some((claim + can) as u32)), (prev.1 - can) as u32, true)
        } else {
            prev
        }
    }
}

/// The claims (per position of `s`) and the missing ingredients, in recipe
/// order, after walking the ingredients `inputs`. An ingredient is missing
/// when not enough of it was found or no slot matched it at all.
pub open spec fn ingredient_claims(s: Seq<Option<Item>>, inputs: Seq<(RecipeInput, u32)>) -> (
    Seq<Option<u32>>,
    Seq<(RecipeInput, u32)>,
)
    decreases inputs.len(),
{
    if inputs.len() == 0 {
        (Seq::new(s.len(), |i: int| None::<u32>), Seq::empty())
    } else {
        let prev = ingredient_claims(s, inputs.drop_last());
        let input = inputs.last().0;
        let sc = claim_scan(s, input, inputs.last().1, prev.0, s.len() as int);
        (sc.0, if sc.1 > 0 || !sc.2 {
            prev.1.push((input, sc.1))
        } else {
            prev.1
        })
    }
}

/// The claimed positions with their amounts, in position order.
pub open spec fn claimed(c: Seq<Option<u32>>) -> Seq<(int, u32)>
    decreases c.len(),
{
    if c.len() == 0 {
        Seq::empty()
    } else {
        claimed(c.drop_last()) + match c.last() {
            Some(x) => seq![(c.len() - 1, x)],
            None => Seq::empty(),
        }
    }
}

/// The claimed positions lie within `c` and strictly increase, so no
/// position is claimed twice.
pub proof fn lemma_claimed_increasing(c: Seq<Option<u32>>)
    ensures
        forall|i: int|
            0 <= i < claimed(c).len() ==> 0 <= (#[trigger] claimed(c)[i]).0 < c.len() && c[claimed(c)[i].0] == Some(
                claimed(c)[i].1,
            ),
        forall|i: int, j: int| 0 <= i < j < claimed(c).len() ==> (#[trigger] claimed(c)[i]).0 < (#[trigger] claimed(c)[j]).0,
    decreases c.len(),
{
    if c.len() > 0 {
        let prev = c.drop_last();
        lemma_claimed_increasing(prev);
        let tail: Seq<(int, u32)> = match c.last() {
            Some(x) => seq![(c.len() - 1, x)],
            None => Seq::empty(),
        };
        let all = claimed(prev) + tail;
        assert(claimed(c) == all);
        assert forall|i: int| 0 <= i < all.len() implies 0 <= (#[trigger] all[i]).0 < c.len() && c[all[i].0] == Some(
            all[i].1,
        ) by {
            if i < claimed(prev).len() {
                assert(all[i] == claimed(prev)[i]);
                assert(c[all[i].0] == prev[all[i].0]);
            }
        }
        assert forall|i: int, j: int| 0 <= i < j < all.len() implies (#[trigger] all[i]).0 < (#[trigger] all[j]).0 by {
            assert(all[i] == claimed(prev)[i]);
            if j < claimed(prev).len() {
                assert(all[j] == claimed(prev)[j]);
            }
        }
    }
}

/// The sum of the claims, per position.
pub open spec fn claims_total(c: Seq<Option<u32>>) -> int
    decreases c.len(),
{
    if c.len() == 0 {
        0
    } else {
        claims_total(c.drop_last()) + match c.last() {
            Some(x) => x as int,
            None => 0int,
        }
    }
}

/// The sum of the amounts of a list of claims.
pub open spec fn claimed_total(v: Seq<(int, u32)>) -> int
    decreases v.len(),
{
    if v.len() == 0 {
        0
    } else {
        claimed_total(v.drop_last()) + v.last().1
    }
}

/// The sum of the amounts of a list of ingredients.
pub open spec fn inputs_total(v: Seq<(RecipeInput, u32)>) -> int
    decreases v.len(),
{
    if v.len() == 0 {
        0
    } else {
        inputs_total(v.drop_last()) + v.last().1
    }
}

proof fn lemma_claimed_total(c: Seq<Option<u32>>)
    ensures
        claimed_total(claimed(c)) == claims_total(c),
    decreases c.len(),
{
    if c.len() > 0 {
        lemma_claimed_total(c.drop_last());
        let prev = claimed(c.drop_last());
        match c.last() {
            Some(x) => {
                let all = prev + seq![(c.len() - 1, x)];
                assert(all.drop_last() =~= prev);
            },
            None => {
                assert(prev + Seq::<(int, u32)>::empty() =~= prev);
            },
        }
    }
}

proof fn lemma_claims_total_none(n: nat)
    ensures
        claims_total(Seq::new(n, |i: int| None::<u32>)) == 0,
    decreases n,
{
    if n > 0 {
        lemma_claims_total_none((n - 1) as nat);
        assert(Seq::new(n, |i: int| None::<u32>).drop_last() =~= Seq::new((n - 1) as nat, |i: int| None::<u32>));
    }
}

proof fn lemma_claims_total_update(c: Seq<Option<u32>>, q: int, v: Option<u32>)
    requires
        0 <= q < c.len(),
    ensures
        claims_total(c.update(q, v)) == claims_total(c) - (match c[q] {
            Some(x) => x as int,
            None => 0int,
        }) + (match v {
            Some(x) => x as int,
            None => 0int,
        }),
    decreases c.len(),
{
    let u = c.update(q, v);
    if q == c.len() - 1 {
        assert(u.drop_last() =~= c.drop_last());
    } else {
        lemma_claims_total_update(c.drop_last(), q, v);
        assert(u.drop_last() =~= c.drop_last().update(q, v));
    }
}

/// One ingredient's walk over the slots: what it claims and what it still
/// needs add up to what it needed, it claims only from slots it matches,
/// and no claim exceeds its slot.
proof fn lemma_claim_scan(s: Seq<Option<Item>>, input: RecipeInput, needed0: u32, c0: Seq<Option<u32>>, p: int)
    requires
        0 <= p <= s.len(),
        claims_ok(s, c0),
    ensures
        ({
            let res = claim_scan(s, input, needed0, c0, p);
            &&& claims_ok(s, res.0)
            &&& claims_total(res.0) + res.1 == claims_total(c0) + needed0
            &&& forall|q: int|
                0 <= q < s.len() && #[trigger] res.0[q] != c0[q] ==> s[q] is Some && matches_input(s[q].unwrap(), input)
        }),
    decreases p,
{
    if p > 0 {
        lemma_claim_scan(s, input, needed0, c0, p - 1);
        let prev = claim_scan(s, input, needed0, c0, p - 1);
        let q = p - 1;
        if s[q] is Some && matches_input(s[q].unwrap(), input) {
            let claim: u32 = match prev.0[q] {
                Some(x) => x,
                None => 0,
            };
            let avail = s[q].unwrap().amount - claim;
            let can = if avail < prev.1 {
                avail
            } else {
                prev.1 as int
            };
            assert(prev.0[q] is Some ==> prev.0[q].unwrap() <= s[q].unwrap().amount);
            lemma_claims_total_update(prev.0, q, Some((claim + can) as u32));
            let res = claim_scan(s, input, needed0, c0, p);
            assert forall|r: int| 0 <= r < s.len() && #[trigger] res.0[r] != c0[r] implies s[r] is Some && matches_input(
                s[r].unwrap(),
                input,
            ) by {
                if r != q {
                    assert(res.0[r] == prev.0[r]);
                }
            }
        }
    }
}

/// What the ingredients of a recipe claim from the slots `s`: no claim
/// exceeds what its slot holds, every claimed slot matches one of the
/// ingredients, and the claims and what is missing add up to what the
/// ingredients need; when nothing is missing, the claims add up to exactly
/// what the ingredients need.
pub proof fn ingredient_claims_add_up(s: Seq<Option<Item>>, inputs: Seq<(RecipeInput, u32)>)
    ensures
        ({
            let out = ingredient_claims(s, inputs);
            &&& claims_ok(s, out.0)
            &&& forall|i: int|
                0 <= i < claimed(out.0).len() ==> exists|j: int|
                    0 <= j < inputs.len() && #[trigger] matches_input(
                        s[(#[trigger] claimed(out.0)[i]).0].unwrap(),
                        inputs[j].0,
                    )
            &&& claimed_total(claimed(out.0)) + inputs_total(out.1) == inputs_total(inputs)
            &&& out.1.len() == 0 ==> claimed_total(claimed(out.0)) == inputs_total(inputs)
        }),
{
    lemma_ingredient_claims(s, inputs);
    let out = ingredient_claims(s, inputs);
    lemma_claimed_total(out.0);
    lemma_claimed_increasing(out.0);
    assert forall|i: int| 0 <= i < claimed(out.0).len() implies exists|j: int|
        0 <= j < inputs.len() && #[trigger] matches_input(s[(#[trigger] claimed(out.0)[i]).0].unwrap(), inputs[j].0) by {
        let q = claimed(out.0)[i].0;
        assert(out.0[q] is Some);
    }
}

proof fn lemma_ingredient_claims(s: Seq<Option<Item>>, inputs: Seq<(RecipeInput, u32)>)
    ensures
        ({
            let out = ingredient_claims(s, inputs);
            &&& claims_ok(s, out.0)
            &&& forall|q: int|
                0 <= q < s.len() && (#[trigger] out.0[q]) is Some ==> exists|j: int|
                    0 <= j < inputs.len() && #[trigger] matches_input(s[q].unwrap(), inputs[j].0)
            &&& claims_total(out.0) + inputs_total(out.1) == inputs_total(inputs)
        }),
    decreases inputs.len(),
{
    if inputs.len() == 0 {
        lemma_claims_total_none(s.len());
    } else {
        let init = inputs.drop_last();
        lemma_ingredient_claims(s, init);
        let prev = ingredient_claims(s, init);
        let input = inputs.last().0;
        lemma_claim_scan(s, input, inputs.last().1, prev.0, s.len() as int);
        let sc = claim_scan(s, input, inputs.last().1, prev.0, s.len() as int);
        let out = ingredient_claims(s, inputs);
        assert(out.0 == sc.0);
        if sc.1 > 0 || !sc.2 {
            assert(out.1.drop_last() =~= prev.1);
        }
        assert forall|q: int| 0 <= q < s.len() && (#[trigger] out.0[q]) is Some implies exists|j: int|
            0 <= j < inputs.len() && #[trigger] matches_input(s[q].unwrap(), inputs[j].0) by {
            if sc.0[q] != prev.0[q] {
                assert(inputs[inputs.len() - 1] == inputs.last());
                assert(matches_input(s[q].unwrap(), inputs[inputs.len() - 1].0));
            } else {
                let j = choose|j: int| 0 <= j < init.len() && #[trigger] matches_input(s[q].unwrap(), init[j].0);
                assert(init[j] == inputs[j]);
                assert(matches_input(s[q].unwrap(), inputs[j].0));
            }
        }
    }
}

/// Claims only name slots that hold an item, and never more than it holds.
pub open spec fn claims_ok(s: Seq<Option<Item>>, c: Seq<Option<u32>>) -> bool {
    &&& c.len() == s.len()
    &&& forall|q: int|
        0 <= q < c.len() && (#[trigger] c[q]) is Some ==> s[q] is Some && c[q].unwrap() <= s[q].unwrap().amount
}

impl Inventory {
    /// The inventory's built-in slots.
    pub closed spec fn base(&self) -> Seq<Option<Item>> {
        self.slots@
    }

    /// The loadout entries.
    pub closed spec fn equipment(&self) -> Seq<LoadoutSlot> {
        self.loadout@
    }

    /// Section 0 is the built-in slots; section k + 1 the slots provided by
    /// loadout entry k.
    pub open spec fn sections(&self) -> Seq<Seq<Option<Item>>> {
        seq![self.base()] + sections_of(self.equipment())
    }

    /// All inventory slots, in the order the inventory walks them.
    pub open spec fn all(&self) -> Seq<Option<Item>> {
        flat(self.sections())
    }

    pub open spec fn wf(&self) -> bool {
        &&& loadout_wf(self.equipment())
        &&& self.base().len() <= MAX_SECTION_LEN
        &&& forall|p: int|
            0 <= p < self.all().len() && (#[trigger] self.all()[p]) is Some ==> self.all()[
                p
            ].unwrap().slots@.len() <= MAX_SECTION_LEN
    }

    /// Whether an inventory slot address points at an existing slot.
    pub open spec fn valid_id(&self, id: InvSlotId) -> bool {
        &&& id.spec_loadout_idx() < self.sections().len()
        &&& id.spec_slot_idx() < self.sections()[id.spec_loadout_idx() as int].len()
    }

    /// The content of the slot at an address.
    pub open spec fn at(&self, id: InvSlotId) -> Option<Item> {
        self.sections()[id.spec_loadout_idx() as int][id.spec_slot_idx() as int]
    }

    /// The position in `all()` of the slot at an address.
    pub open spec fn pos(&self, id: InvSlotId) -> int {
        offset(self.sections(), id.spec_loadout_idx() as int) + id.spec_slot_idx()
    }

    /// The sections after writing `v` into the slot at section `k`, index `j`.
    pub open spec fn written(&self, k: int, j: int, v: Option<Item>) -> Seq<Seq<Option<Item>>> {
        self.sections().update(k, self.sections()[k].update(j, v))
    }

    proof fn lemma_sections(&self)
        ensures
            self.sections().len() == LOADOUT_LEN + 1 || !loadout_wf(self.equipment()),
            self.sections().len() == self.equipment().len() + 1,
            self.sections()[0] == self.base(),
            forall|k: int|
                0 <= k < self.equipment().len() ==> #[trigger] self.sections()[k + 1] == opt_slots(
                    self.equipment()[k].slot,
                ),
    {
        assert(self.sections()[0] == self.base());
        assert forall|k: int| 0 <= k < self.equipment().len() implies #[trigger] self.sections()[k
            + 1] == opt_slots(self.equipment()[k].slot) by {
            assert(self.sections()[k + 1] == sections_of(self.equipment())[k]);
        }
    }

    /// Sections with the same lengths under the same frame.
    proof fn lemma_frame_lengths(a: &Inventory, b: &Inventory)
        requires
            frame_same(a, b),
        ensures
            a.sections().len() == b.sections().len(),
            forall|k: int|
                0 <= k < a.sections().len() ==> #[trigger] a.sections()[k].len()
                    == b.sections()[k].len(),
            a.all().len() == b.all().len(),
    {
        a.lemma_sections();
        b.lemma_sections();
        assert forall|k: int| 0 <= k < a.sections().len() implies #[trigger] a.sections()[k].len()
            == b.sections()[k].len() by {
            if k > 0 {
                assert(a.equipment()[k - 1] == a.equipment()[k - 1]);
                assert(b.equipment()[k - 1] == b.equipment()[k - 1]);
                assert(a.sections()[(k - 1) + 1] == opt_slots(a.equipment()[k - 1].slot));
                assert(b.sections()[(k - 1) + 1] == opt_slots(b.equipment()[k - 1].slot));
            }
        }
        seqs::lemma_flat_len_same(a.sections(), b.sections());
    }

    // ----- section access -----

    fn n_sections(&self) -> (n: usize)
        requires
            self.wf(),
        ensures
            n == self.sections().len(),
            n == LOADOUT_LEN + 1,
    {
        proof {
            self.lemma_sections();
        }
        LOADOUT_LEN + 1
    }

    fn sec_len(&self, k: usize) -> (n: usize)
        requires
            self.wf(),
            k < self.sections().len(),
        ensures
            n == self.sections()[k as int].len(),
            n <= MAX_SECTION_LEN,
    {
        proof {
            self.lemma_sections();
        }
        if k == 0 {
            self.slots.len()
        } else {
            proof {
                assert(self.sections()[(k - 1) + 1] == opt_slots(self.equipment()[k - 1].slot));
            }
            self.loadout.section_len(k - 1)
        }
    }

    fn sec_slot(&self, k: usize, j: usize) -> (r: &Option<Item>)
        requires
            self.wf(),
            k < self.sections().len(),
            j < self.sections()[k as int].len(),
        ensures
            *r == self.sections()[k as int][j as int],
    {
        proof {
            self.lemma_sections();
        }
        if k == 0 {
            &self.slots[j]
        } else {
            proof {
                assert(self.sections()[(k - 1) + 1] == opt_slots(self.equipment()[k - 1].slot));
            }
            self.loadout.section_slot(k - 1, j)
        }
    }

    /// Writes one slot; nothing else changes.
    fn replace_at(&mut self, k: usize, j: usize, v: Option<Item>) -> (r: Option<Item>)
        requires
            old(self).wf(),
            k < old(self).sections().len(),
            j < old(self).sections()[k as int].len(),
            v is Some ==> v.unwrap().slots@.len() <= MAX_SECTION_LEN,
        ensures
            r == old(self).sections()[k as int][j as int],
            frame_same(old(self), final(self)),
            final(self).sections() == old(self).written(k as int, j as int, v),
            final(self).all() == old(self).all().update(offset(old(self).sections(), k as int) + j, v),
            final(self).wf(),
    {
        proof {
            self.lemma_sections();
        }
        let ghost pre = *self;
        let ghost vin = v;
        let mut v = v;
        if k == 0 {
            std::mem::swap(&mut self.slots[j], &mut v);
        } else {
            proof {
                assert(self.sections()[(k - 1) + 1] == opt_slots(self.equipment()[k - 1].slot));
            }
            v = self.loadout.replace_section_slot(k - 1, j, v);
        }
        proof {
            self.lemma_sections();
            let w = pre.written(k as int, j as int, vin);
            assert(self.sections() =~= w) by {
                assert forall|q: int| 0 <= q < w.len() implies #[trigger] self.sections()[q] == w[q] by {
                    if q > 0 {
                        assert(self.sections()[(q - 1) + 1] == opt_slots(self.equipment()[q - 1].slot));
                        assert(pre.sections()[(q - 1) + 1] == opt_slots(pre.equipment()[q - 1].slot));
                    }
                }
            }
            seqs::lemma_flat_update(pre.sections(), k as int, j as int, vin);
            seqs::lemma_flat_index(pre.sections(), k as int, j as int);
            assert(self.sections() == w);
            assert(self.all() == flat(w));
            assert(self.all() == pre.all().update(offset(pre.sections(), k as int) + j, vin));
            assert forall|p: int|
                0 <= p < self.all().len() && (#[trigger] self.all()[p]) is Some implies self.all()[
                p
            ].unwrap().slots@.len() <= MAX_SECTION_LEN by {
                if p != offset(pre.sections(), k as int) + j {
                    assert(self.all()[p] == pre.all()[p]);
                }
            }
            assert forall|q: int| 0 <= q < LOADOUT_LEN implies #[trigger] opt_slots(
                self.equipment()[q].slot,
            ).len() <= MAX_SECTION_LEN by {
                assert(opt_slots(self.equipment()[q].slot).len() == opt_slots(pre.equipment()[q].slot).len());
            }
        }
        v
    }

    /// `post` is `pre` with `v` written into the slot at section `k`, index
    /// `j`, described on the inventory's own slots and loadout entries.
    pub open spec fn slot_written(pre: &Inventory, post: &Inventory, k: int, j: int, v: Option<Item>) -> bool {
        &&& k == 0 ==> post.base() == pre.base().update(j, v) && post.equipment() == pre.equipment()
        &&& k > 0 ==> {
                &&& post.base() == pre.base()
                &&& post.equipment().len() == pre.equipment().len()
                &&& forall|q: int|
                    0 <= q < pre.equipment().len() && q != k - 1 ==> #[trigger] post.equipment()[q] == pre.equipment()[q]
                &&& post.equipment()[k - 1].equip_slot == pre.equipment()[k - 1].equip_slot
                &&& post.equipment()[k - 1].slot is Some
                &&& pre.equipment()[k - 1].slot is Some
                &&& post.equipment()[k - 1].slot.unwrap().item_def == pre.equipment()[k - 1].slot.unwrap().item_def
                &&& post.equipment()[k - 1].slot.unwrap().amount == pre.equipment()[k - 1].slot.unwrap().amount
                &&& post.equipment()[k - 1].slot.unwrap().slots@ == pre.equipment()[k - 1].slot.unwrap().slots@.update(j, v)
}
    }

    /// Writing `v` into the slot at section `k`, index `j`, described on the
    /// inventory's own slots and loadout entries, is writing it into that
    /// section; the inventory stays well formed when `v` fits.
    proof fn lemma_slot_write(pre: &Inventory, post: &Inventory, k: int, j: int, v: Option<Item>)
        requires
            pre.wf(),
            0 <= k < pre.sections().len(),
            0 <= j < pre.sections()[k].len(),
            Self::slot_written(pre, post, k, j, v),
        ensures
            post.sections() == pre.written(k, j, v),
            frame_same(pre, post),
            opt_fits(v) ==> post.wf(),
    {
        pre.lemma_sections();
        post.lemma_sections();
        pre.lemma_wf_sections();
        post.lemma_wf_sections();
        let w = pre.written(k, j, v);
        assert(post.sections() =~= w) by {
            assert forall|q: int| 0 <= q < w.len() implies #[trigger] post.sections()[q] == w[q] by {
                if q > 0 {
                    assert(post.sections()[(q - 1) + 1] == opt_slots(post.equipment()[q - 1].slot));
                    assert(pre.sections()[(q - 1) + 1] == opt_slots(pre.equipment()[q - 1].slot));
                }
            }
        }
        if opt_fits(v) {
            assert forall|q: int| 0 <= q < LOADOUT_LEN implies #[trigger] opt_slots(post.equipment()[q].slot).len()
                <= MAX_SECTION_LEN by {
                assert(opt_slots(pre.equipment()[q].slot).len() <= MAX_SECTION_LEN);
            }
            assert forall|kk: int, jj: int|
                0 <= kk < post.sections().len() && 0 <= jj < post.sections()[kk].len() && (#[trigger] post.sections()[kk][jj]) is Some
                    implies post.sections()[kk][jj].unwrap().slots@.len() <= MAX_SECTION_LEN by {
                if !(kk == k && jj == j) {
                    assert(post.sections()[kk][jj] == pre.sections()[kk][jj]);
                }
            }
        }
    }

    /// `lemma_slot_write` for every outcome of a write into one slot.
    proof fn lemma_slot_write_any(pre: &Inventory, k: int, j: int)
        requires
            pre.wf(),
            0 <= k < pre.sections().len(),
            0 <= j < pre.sections()[k].len(),
        ensures
            forall|post: Inventory, v: Option<Item>|
                #[trigger] Self::slot_written(pre, &post, k, j, v) ==> post.sections() == pre.written(k, j, v),
            forall|post: Inventory, v: Option<Item>| #[trigger] Self::slot_written(pre, &post, k, j, v) ==> frame_same(pre, &post),
            forall|post: Inventory, v: Option<Item>|
                #[trigger] Self::slot_written(pre, &post, k, j, v) ==> (opt_fits(v) ==> post.wf()),
    {
        assert forall|post: Inventory, v: Option<Item>| #[trigger] Self::slot_written(pre, &post, k, j, v) implies {
            &&& post.sections() == pre.written(k, j, v)
            &&& frame_same(pre, &post)
            &&& opt_fits(v) ==> post.wf()
        } by {
            Self::lemma_slot_write(pre, &post, k, j, v);
        }
    }

    /// Section and index of position `p` of `all()`.
    fn locate(&self, p: usize) -> (kj: (usize, usize))
        requires
            self.wf(),
            p < self.all().len(),
        ensures
            kj.0 < self.sections().len(),
            kj.1 < self.sections()[kj.0 as int].len(),
            p == offset(self.sections(), kj.0 as int) + kj.1,
    {
        let ghost secs = self.sections();
        let n = self.n_sections();
        let mut k: usize = 0;
        let mut start: usize = 0;
        while k < n
            invariant
                self.wf(),
                secs == self.sections(),
                n == secs.len(),
                k <= n,
                start == offset(secs, k as int),
                start <= p,
                p < flat(secs).len(),
            decreases n - k,
        {
            let len = self.sec_len(k);
            proof {
                seqs::lemma_flat_take_succ(secs, k as int);
            }
            if p - start < len {
                return (k, p - start);
            }
            start = start + len;
            k += 1;
        }
        proof {
            assert(secs.take(n as int) =~= secs);
        }
        (0, 0)
    }

    // ----- construction -----

    /// An inventory with the default number of empty slots and nothing equipped.
    pub fn new_empty() -> (r: Inventory)
        ensures
            r.wf(),
            r.base().len() == DEFAULT_INVENTORY_SLOTS,
            all_none(r.base()),
            forall|k: int| 0 <= k < LOADOUT_LEN ==> (#[trigger] r.equipment()[k]).slot is None,
    {
        Self::new_with_loadout(Loadout::new_empty())
    }

    /// An inventory with the default number of empty slots and the given loadout.
    pub fn new_with_loadout(loadout: Loadout) -> (r: Inventory)
        requires
            loadout_wf(loadout@),
            forall|k: int|
                0 <= k < LOADOUT_LEN ==> #[trigger] all_none(opt_slots(loadout@[k].slot)),
        ensures
            r.wf(),
            r.base().len() == DEFAULT_INVENTORY_SLOTS,
            all_none(r.base()),
            r.equipment() == loadout@,
    {
        let mut slots: Vec<InvSlot> = Vec::new();
        let mut i: usize = 0;
        while i < DEFAULT_INVENTORY_SLOTS
            invariant
                i <= DEFAULT_INVENTORY_SLOTS,
                slots@.len() == i,
                all_none(slots@),
            decreases DEFAULT_INVENTORY_SLOTS - i,
        {
            slots.push(None);
            i += 1;
        }
        let r = Inventory { loadout, slots };
        proof {
            r.lemma_no_items(); 
        }
        r
    }

    /// An inventory made of the given built-in slots and loadout.
    pub fn from_parts(slots: Vec<InvSlot>, loadout: Loadout) -> (r: Inventory)
        ensures
            r.base() == slots@,
            r.equipment() == loadout@,
    {
        Inventory { loadout, slots }
    }

    /// With no item anywhere, the inventory is well formed when its layout is.
    proof fn lemma_no_items(&self)
        requires
            loadout_wf(self.equipment()),
            self.base().len() <= MAX_SECTION_LEN,
            all_none(self.base()),
            forall|k: int|
                0 <= k < LOADOUT_LEN ==> #[trigger] all_none(opt_slots(self.equipment()[k].slot)),
        ensures
            self.wf(),
            all_none(self.all()),
    {
        self.lemma_sections();
        assert forall|p: int| 0 <= p < self.all().len() implies (#[trigger] self.all()[p]) is None by {
            let kj = seqs::lemma_flat_locate(self.sections(), p);
            seqs::lemma_flat_index(self.sections(), kj.0, kj.1);
            if kj.0 > 0 {
                assert(self.sections()[(kj.0 - 1) + 1] == opt_slots(self.equipment()[kj.0 - 1].slot));
                assert(all_none(opt_slots(self.equipment()[kj.0 - 1].slot)));
            }
        }
    }

    // ----- reading -----

    /// All inventory slots, in order.
    pub fn slots(&self) -> (r: Vec<&InvSlot>)
        requires
            self.wf(),
        ensures
            r@.len() == self.all().len(),
            forall|i: int| 0 <= i < r@.len() ==> *r@[i] == self.all()[i],
    {
        let ghost secs = self.sections();
        let n = self.n_sections();
        let mut out: Vec<&InvSlot> = Vec::new();
        let mut k: usize = 0;
        while k < n
            invariant
                self.wf(),
                secs == self.sections(),
                n == secs.len(),
                k <= n,
                out@.len() == offset(secs, k as int),
                forall|i: int| 0 <= i < out@.len() ==> *out@[i] == flat(secs)[i],
            decreases n - k,
        {
            let len = self.sec_len(k);
            let mut j: usize = 0;
            while j < len
                invariant
                    self.wf(),
                    secs == self.sections(),
                    n == secs.len(),
                    k < n,
                    len == secs[k as int].len(),
                    j <= len,
                    out@.len() == offset(secs, k as int) + j,
                    forall|i: int| 0 <= i < out@.len() ==> *out@[i] == flat(secs)[i],
                decreases len - j,
            {
                proof {
                    seqs::lemma_flat_index(secs, k as int, j as int);
                }
                out.push(self.sec_slot(k, j));
                j += 1;
            }
            proof {
                seqs::lemma_flat_take_succ(secs, k as int);
            }
            k += 1;
        }
        proof {
            assert(secs.take(n as int) =~= secs);
        }
        out
    }

    /// Total number of slots in in the inventory.
    pub fn capacity(&self) -> (n: usize)
        requires
            self.wf(),
        ensures
            n == self.all().len(),
    {
        self.slots().len()
    }

    /// Number of slots holding an item.
    pub fn populated_slots(&self) -> (n: usize)
        requires
            self.wf(),
        ensures
            n == count_some(self.all()),
    {
        let all = self.slots();
        let mut n: usize = 0;
        let mut i: usize = 0;
        while i < all.len()
            invariant
                all@.len() == self.all().len(),
                forall|q: int| 0 <= q < all@.len() ==> *all@[q] == self.all()[q],
                i <= all@.len(),
                n == count_some(self.all().take(i as int)),
                n <= i,
            decreases all@.len() - i,
        {
            proof {
                seqs::lemma_count_push(self.all().take(i as int), self.all()[i as int]);
                assert(self.all().take(i as int).push(self.all()[i as int]) =~= self.all().take(i + 1));
            }
            if all[i].is_some() {
                n += 1;
            }
            i += 1;
        }
        assert(self.all().take(i as int) =~= self.all());
        n
    }

    /// Number of empty slots.
    pub fn free_slots(&self) -> (n: usize)
        requires
            self.wf(),
        ensures
            n == count_none(self.all()),
    {
        let all = self.slots();
        let mut n: usize = 0;
        let mut i: usize = 0;
        while i < all.len()
            invariant
                all@.len() == self.all().len(),
                forall|q: int| 0 <= q < all@.len() ==> *all@[q] == self.all()[q],
                i <= all@.len(),
                n == count_none(self.all().take(i as int)),
                n <= i,
            decreases all@.len() - i,
        {
            proof {
                seqs::lemma_count_push(self.all().take(i as int), self.all()[i as int]);
                assert(self.all().take(i as int).push(self.all()[i as int]) =~= self.all().take(i + 1));
            }
            if all[i].is_none() {
                n += 1;
            }
            i += 1;
        }
        assert(self.all().take(i as int) =~= self.all());
        n
    }

    /// Check if an item is in this inventory.
    pub fn contains(&self, item: &Item) -> (b: bool)
        requires
            self.wf(),
        ensures
            b == has_match(self.all(), *item),
    {
        let all = self.slots();
        let mut i: usize = 0;
        while i < all.len()
            invariant
                all@.len() == self.all().len(),
                forall|q: int| 0 <= q < all@.len() ==> *all@[q] == self.all()[q],
                i <= all@.len(),
                forall|q: int|
                    0 <= q < i ==> !((#[trigger] self.all()[q]) is Some && same_def(
                        self.all()[q].unwrap(),
                        *item,
                    )),
            decreases all@.len() - i,
        {
            match all[i] {
                Some(it) => {
                    if *it == *item {
                        return true;
                    }
                },
                None => {},
            }
            i += 1;
        }
        false
    }

    /// The slot at an address, if that slot exists.
    pub fn slot(&self, inv_slot_id: InvSlotId) -> (r: Option<&InvSlot>)
        requires
            self.wf(),
        ensures
            r is Some <==> self.valid_id(inv_slot_id),
            r is Some ==> *r.unwrap() == self.at(inv_slot_id),
    {
        let k = inv_slot_id.loadout_idx();
        let j = inv_slot_id.slot_idx();
        if k < self.n_sections() && j < self.sec_len(k) {
            Some(self.sec_slot(k, j))
        } else {
            None
        }
    }

    /// Mutable access to the slot at an address, if that slot exists. The
    /// inventory stays well formed when what is written there fits.
    #[verifier::spinoff_prover]
    pub fn slot_mut(&mut self, inv_slot_id: InvSlotId) -> (r: Option<&mut InvSlot>)
        requires
            old(self).wf(),
        ensures
            r is Some <==> old(self).valid_id(inv_slot_id),
            r is Some ==> *r.unwrap() == old(self).at(inv_slot_id),
            r is Some ==> Self::slot_written(
                old(self),
                final(self),
                inv_slot_id.spec_loadout_idx() as int,
                inv_slot_id.spec_slot_idx() as int,
                *final(r.unwrap()),
            ) && (opt_fits(*final(r.unwrap())) ==> final(self).wf()),
            r is Some ==> frame_same(old(self), final(self)),
            r is Some ==> final(self).sections() == old(self).written(
                inv_slot_id.spec_loadout_idx() as int,
                inv_slot_id.spec_slot_idx() as int,
                *final(r.unwrap()),
            ),
            r is None ==> final(self).base() == old(self).base() && final(self).equipment() == old(self).equipment(),
    {
        let ghost pre = *self;
        proof {
            self.lemma_sections();
        }
        match SlotId::from_inv_slot_id(inv_slot_id) {
            SlotId::Inventory(slot_idx) => {
                if slot_idx < self.slots.len() {
                    proof {
                        Self::lemma_slot_write_any(&pre, 0, slot_idx as int);
                    }
                    Some(&mut self.slots[slot_idx])
                } else {
                    None
                }
            },
            SlotId::Loadout(loadout_slot_id) => {
                proof {
                    let k = loadout_slot_id.loadout_idx as int;
                    if k < LOADOUT_LEN {
                        assert(pre.sections()[k + 1] == opt_slots(pre.equipment()[k].slot));
                        if loadout_slot_id.slot_idx < pre.sections()[k + 1].len() {
                            Self::lemma_slot_write_any(&pre, k + 1, loadout_slot_id.slot_idx as int);
                        }
                    }
                }
                self.loadout.inv_slot_mut(loadout_slot_id)
            },
        }
    }

    /// Get content of a slot
    pub fn get(&self, inv_slot_id: InvSlotId) -> (r: Option<&Item>)
        requires
            self.wf(),
        ensures
            opt_ref(r, if self.valid_id(inv_slot_id) { self.at(inv_slot_id) } else { None }),
    {
        match self.slot(inv_slot_id) {
            Some(s) => s.as_ref(),
            None => None,
        }
    }

    // ----- writing single slots -----

    /// Replaces an item in a specific slot of the inventory. Returns the old
    /// item or the same item again if that slot was not found.
    pub fn insert_at(&mut self, inv_slot_id: InvSlotId, item: Item) -> (r: Result<Option<Item>, Item>)
        requires
            old(self).wf(),
            item.slots@.len() <= MAX_SECTION_LEN,
        ensures
            final(self).wf(),
            frame_same(old(self), final(self)),
            old(self).valid_id(inv_slot_id) ==> r == Ok::<Option<Item>, Item>(old(self).at(inv_slot_id))
                && final(self).sections() == old(self).written(
                inv_slot_id.spec_loadout_idx() as int,
                inv_slot_id.spec_slot_idx() as int,
                Some(item),
            ),
            !old(self).valid_id(inv_slot_id) ==> r == Err::<Option<Item>, Item>(item) && *final(self)
                == *old(self),
    {
        let k = inv_slot_id.loadout_idx();
        let j = inv_slot_id.slot_idx();
        if k < self.n_sections() && j < self.sec_len(k) {
            Ok(self.replace_at(k, j, Some(item)))
        } else {
            Err(item)
        }
    }

    /// Remove an item from the slot
    pub fn remove(&mut self, inv_slot_id: InvSlotId) -> (r: Option<Item>)
        requires
            old(self).wf(),
        ensures
            final(self).wf(),
            frame_same(old(self), final(self)),
            old(self).valid_id(inv_slot_id) ==> r == old(self).at(inv_slot_id) && final(self).sections()
                == old(self).written(
                inv_slot_id.spec_loadout_idx() as int,
                inv_slot_id.spec_slot_idx() as int,
                None,
            ),
            !old(self).valid_id(inv_slot_id) ==> r is None && *final(self) == *old(self),
    {
        let k = inv_slot_id.loadout_idx();
        let j = inv_slot_id.slot_idx();
        if k < self.n_sections() && j < self.sec_len(k) {
            self.replace_at(k, j, None)
        } else {
            None
        }
    }

    /// The sections after exchanging the contents of the slots at `a` and `b`.
    pub open spec fn slots_swapped(&self, a: InvSlotId, b: InvSlotId) -> Seq<Seq<Option<Item>>> {
        let w = self.written(a.spec_loadout_idx() as int, a.spec_slot_idx() as int, self.at(b));
        w.update(
            b.spec_loadout_idx() as int,
            w[b.spec_loadout_idx() as int].update(b.spec_slot_idx() as int, self.at(a)),
        )
    }

    /// Swap the items inside of two slots
    #[verifier::spinoff_prover]
    pub fn swap_slots(&mut self, a: InvSlotId, b: InvSlotId)
        requires
            old(self).wf(),
        ensures
            final(self).wf(),
            frame_same(old(self), final(self)),
            old(self).valid_id(a) && old(self).valid_id(b) ==> final(self).sections() == old(self).slots_swapped(a, b),
            !(old(self).valid_id(a) && old(self).valid_id(b)) ==> *final(self) == *old(self),
    {
        if self.slot(a).is_none() || self.slot(b).is_none() {
            return;
        }
        let ka = a.loadout_idx();
        let ja = a.slot_idx();
        let kb = b.loadout_idx();
        let jb = b.slot_idx();
        let ghost pre = *self;
        proof {
            pre.lemma_at(a);
            pre.lemma_at(b);
        }
        let slot_a = self.replace_at(ka, ja, None);
        proof {
            Self::lemma_frame_lengths(&pre, self);
        }
        let slot_b = self.replace_at(kb, jb, None);
        let ghost mid = *self;
        proof {
            Self::lemma_frame_lengths(&pre, self);
        }
        let _ = self.replace_at(ka, ja, slot_b);
        proof {
            Self::lemma_frame_lengths(&pre, self);
        }
        let _ = self.replace_at(kb, jb, slot_a);
        proof {
            let s1 = pre.written(ka as int, ja as int, pre.at(b));
            let s2 = s1.update(kb as int, s1[kb as int].update(jb as int, pre.at(a)));
            assert(self.sections() =~~= s2);
        }
    }

    fn find_first_none(&self) -> (r: Option<usize>)
        requires
            self.wf(),
        ensures
            match r {
                Some(p) => first_none_at(self.all(), p as int),
                None => !has_none(self.all()),
            },
    {
        let all = self.slots();
        let mut i: usize = 0;
        while i < all.len()
            invariant
                all@.len() == self.all().len(),
                forall|q: int| 0 <= q < all@.len() ==> *all@[q] == self.all()[q],
                i <= all@.len(),
                forall|q: int| 0 <= q < i ==> (#[trigger] self.all()[q]) is Some,
            decreases all@.len() - i,
        {
            if all[i].is_none() {
                return Some(i);
            }
            i += 1;
        }
        None
    }

    fn find_first_match(&self, item: &Item) -> (r: Option<usize>)
        requires
            self.wf(),
        ensures
            match r {
                Some(p) => first_match_at(self.all(), *item, p as int),
                None => !has_match(self.all(), *item),
            },
    {
        let all = self.slots();
        let mut i: usize = 0;
        while i < all.len()
            invariant
                all@.len() == self.all().len(),
                forall|q: int| 0 <= q < all@.len() ==> *all@[q] == self.all()[q],
                i <= all@.len(),
                forall|q: int|
                    0 <= q < i ==> !((#[trigger] self.all()[q]) is Some && same_def(
                        self.all()[q].unwrap(),
                        *item,
                    )),
            decreases all@.len() - i,
        {
            match all[i] {
                Some(it) => {
                    if *it == *item {
                        return Some(i);
                    }
                },
                None => {},
            }
            i += 1;
        }
        None
    }

    /// Puts `item` into the first empty slot; gives it back when there is none.
    fn insert(&mut self, item: Item) -> (r: Option<Item>)
        requires
            old(self).wf(),
            item.slots@.len() <= MAX_SECTION_LEN,
        ensures
            final(self).wf(),
            frame_same(old(self), final(self)),
            has_none(old(self).all()) ==> final(self).all() == old(self).all().update(
                first_none_pos(old(self).all()),
                Some(item),
            ) && r is None,
            !has_none(old(self).all()) ==> final(self).all() == old(self).all() && r == Some(item),
    {
        let found = self.find_first_none();
        proof {
            if found is Some {
                lemma_first_none(self.all());
            }
        }
        match found {
            Some(p) => {
                let (k, j) = self.locate(p);
                let _ = self.replace_at(k, j, Some(item));
                None
            },
            None => Some(item),
        }
    }

    /// Adds a new item to the first fitting group of the inventory or starts a
    /// new group. Returns the item again if no space was found.
    pub fn push(&mut self, item: Item) -> (r: Option<Item>)
        requires
            old(self).wf(),
            item.slots@.len() <= MAX_SECTION_LEN,
        ensures
            final(self).wf(),
            frame_same(old(self), final(self)),
            (final(self).all(), r) == push_spec(old(self).all(), item, item),
    {
        if item.is_stackable() {
            let found = self.find_first_match(&item);
            proof {
                if found is Some {
                    lemma_first_match(self.all(), item);
                }
            }
            match found {
                Some(p) => {
                    let ghost pre = *self;
                    let (k, j) = self.locate(p);
                    proof {
                        seqs::lemma_flat_index(pre.sections(), k as int, j as int);
                    }
                    let taken = self.replace_at(k, j, None);
                    let mut slot_item = taken.unwrap();
                    let res = slot_item.increase_amount(item.amount());
                    proof {
                        Self::lemma_frame_lengths(&pre, self);
                        seqs::lemma_flat_index(self.sections(), k as int, j as int);
                        seqs::lemma_offset_same(pre.sections(), self.sections(), k as int);
                    }
                    let _ = self.replace_at(k, j, Some(slot_item));
                    proof {
                        assert(self.all() =~= pre.all().update(p as int, Some(slot_item)));
                    }
                    return match res {
                        Ok(()) => None,
                        Err(_) => {
                            assert(self.all() =~= pre.all());
                            Some(item)
                        },
                    };
                },
                None => {},
            }
        }
        self.insert(item)
    }

    /// Add a series of items to inventory, returning any which do not fit as an
    /// error.
    pub fn push_all(&mut self, items: Vec<Item>) -> (r: Result<(), Error>)
        requires
            old(self).wf(),
            forall|i: int| 0 <= i < items@.len() ==> (#[trigger] items@[i]).slots@.len() <= MAX_SECTION_LEN,
        ensures
            final(self).wf(),
            frame_same(old(self), final(self)),
            final(self).all() == push_all_spec(old(self).all(), items@).0,
            match r {
                Ok(()) => push_all_spec(old(self).all(), items@).1.len() == 0,
                Err(Error::Full(left)) => left@ == push_all_spec(old(self).all(), items@).1 && left@.len() > 0,
            },
    {
        let ghost pre = *self;
        let ghost all_items = items@;
        let mut leftovers: Vec<Item> = Vec::new();
        for item in iter: items.into_iter()
            invariant
                self.wf(),
                frame_same(&pre, self),
                iter.seq() == all_items,
                forall|i: int| 0 <= i < all_items.len() ==> (#[trigger] all_items[i]).slots@.len() <= MAX_SECTION_LEN,
                (self.all(), leftovers@) == push_all_spec(pre.all(), all_items.take(iter.index() as int)),
        {
            let ghost before = *self;
            let ghost idx = iter.index();
            proof {
                assert(all_items.take(idx + 1).drop_last() =~= all_items.take(idx as int));
            }
            match self.push(item) {
                Some(back) => {
                    leftovers.push(back);
                },
                None => {},
            }
            proof {
                Self::lemma_frame_trans(&pre, &before, self);
            }
        }
        proof {
            assert(all_items.take(all_items.len() as int) =~= all_items);
        }
        if leftovers.len() > 0 {
            Err(Error::Full(leftovers))
        } else {
            Ok(())
        }
    }

    proof fn lemma_frame_trans(a: &Inventory, b: &Inventory, c: &Inventory)
        requires
            frame_same(a, b),
            frame_same(b, c),
        ensures
            frame_same(a, c),
    {
        assert forall|k: int| 0 <= k < a.equipment().len() implies {
            &&& a.equipment()[k].equip_slot == c.equipment()[k].equip_slot
            &&& (a.equipment()[k].slot is Some <==> c.equipment()[k].slot is Some)
        } by {
            assert(b.equipment()[k] == b.equipment()[k]);
        }
        assert forall|k: int| 0 <= k < a.equipment().len() && a.equipment()[k].slot is Some implies {
            &&& a.equipment()[k].slot.unwrap().item_def == c.equipment()[k].slot.unwrap().item_def
            &&& a.equipment()[k].slot.unwrap().amount == c.equipment()[k].slot.unwrap().amount
            &&& a.equipment()[k].slot.unwrap().slots@.len() == c.equipment()[k].slot.unwrap().slots@.len()
        } by {
            assert(b.equipment()[k] == b.equipment()[k]);
        }
    }

    /// Add a series of items to an inventory without giving duplicates.
    /// (n * m complexity)
    ///
    /// Error if inventory cannot contain the items (is full), returning the
    /// un-added items.
    pub fn push_all_unique(&mut self, items: Vec<Item>) -> (r: Result<(), Error>)
        requires
            old(self).wf(),
            forall|i: int| 0 <= i < items@.len() ==> (#[trigger] items@[i]).slots@.len() <= MAX_SECTION_LEN,
        ensures
            final(self).wf(),
            frame_same(old(self), final(self)),
            final(self).all() == push_all_unique_spec(old(self).all(), items@).0,
            match r {
                Ok(()) => push_all_unique_spec(old(self).all(), items@).1.len() == 0,
                Err(Error::Full(left)) => left@ == push_all_unique_spec(old(self).all(), items@).1
                    && left@.len() > 0,
            },
    {
        let ghost pre = *self;
        let ghost all_items = items@;
        let mut leftovers: Vec<Item> = Vec::new();
        for item in iter: items.into_iter()
            invariant
                self.wf(),
                frame_same(&pre, self),
                iter.seq() == all_items,
                forall|i: int| 0 <= i < all_items.len() ==> (#[trigger] all_items[i]).slots@.len() <= MAX_SECTION_LEN,
                (self.all(), leftovers@) == push_all_unique_spec(pre.all(), all_items.take(iter.index() as int)),
        {
            let ghost before = *self;
            let ghost idx = iter.index();
            proof {
                assert(all_items.take(idx + 1).drop_last() =~= all_items.take(idx as int));
            }
            if !self.contains(&item) {
                match self.push(item) {
                    Some(back) => {
                        leftovers.push(back);
                    },
                    None => {},
                }
            }
            proof {
                Self::lemma_frame_trans(&pre, &before, self);
            }
        }
        proof {
            assert(all_items.take(all_items.len() as int) =~= all_items);
        }
        if leftovers.len() > 0 {
            Err(Error::Full(leftovers))
        } else {
            Ok(())
        }
    }

    /// Merge the stack of items at src into the stack at dst if the items are
    /// compatible and stackable, and return whether anything was changed. A
    /// stack is not merged into itself, nor into a stack it would take past
    /// the largest amount.
    pub fn merge_stack_into(&mut self, src: InvSlotId, dst: InvSlotId) -> (r: bool)
        requires
            old(self).wf(),
        ensures
            final(self).wf(),
            frame_same(old(self), final(self)),
            r == (old(self).mergeable(src, dst) && src != dst && old(self).at(src).unwrap().amount + old(
                self,
            ).at(dst).unwrap().amount <= u32::MAX),
            r ==> {
                let s1 = old(self).written(
                    src.spec_loadout_idx() as int,
                    src.spec_slot_idx() as int,
                    None,
                );
                let d = old(self).at(dst).unwrap();
                final(self).sections() == s1.update(
                    dst.spec_loadout_idx() as int,
                    s1[dst.spec_loadout_idx() as int].update(
                        dst.spec_slot_idx() as int,
                        Some(with_amount(d, (d.amount + old(self).at(src).unwrap().amount) as u32)),
                    ),
                )
            },
            !r ==> *final(self) == *old(self),
    {
        let same_slot = src.loadout_idx() == dst.loadout_idx() && src.slot_idx() == dst.slot_idx();
        proof {
            InvSlotId::lemma_id_eq(src, dst);
        }
        let mut amount: Option<u32> = None;
        match (self.get(src), self.get(dst)) {
            (Some(srcitem), Some(dstitem)) => {
                if !same_slot && *srcitem == *dstitem && srcitem.is_stackable() && dstitem.amount() <= u32::MAX
                    - srcitem.amount() {
                    amount = Some(srcitem.amount());
                }
            },
            _ => {},
        }
        match amount {
            Some(amount) => {
                let ghost pre = *self;
                proof {
                    pre.lemma_at(src);
                    pre.lemma_at(dst);
                    InvSlotId::lemma_id_eq(src, dst);
                }
                let _ = self.remove(src);
                let ghost mid = *self;
                proof {
                    Self::lemma_frame_lengths(&pre, self);
                    mid.lemma_at(dst);
                }
                let kd = dst.loadout_idx();
                let jd = dst.slot_idx();
                let mut dstitem = self.replace_at(kd, jd, None).unwrap();
                let _ = dstitem.increase_amount(amount);
                proof {
                    Self::lemma_frame_lengths(&pre, self);
                }
                let _ = self.replace_at(kd, jd, Some(dstitem));
                proof {
                    Self::lemma_frame_trans(&pre, &mid, self);
                    let s1 = pre.written(src.spec_loadout_idx() as int, src.spec_slot_idx() as int, None);
                    let d = pre.at(dst).unwrap();
                    assert(self.sections() =~~= s1.update(
                        dst.spec_loadout_idx() as int,
                        s1[dst.spec_loadout_idx() as int].update(
                            dst.spec_slot_idx() as int,
                            Some(with_amount(d, (d.amount + pre.at(src).unwrap().amount) as u32)),
                        ),
                    ));
                }
                true
            },
            None => false,
        }
    }

    /// Checks if inserting item exists in given cell. Inserts an item if it
    /// exists.
    pub fn insert_or_stack_at(&mut self, inv_slot_id: InvSlotId, item: Item) -> (r: Result<
        Option<Item>,
        Item,
    >)
        requires
            old(self).wf(),
            item.slots@.len() <= MAX_SECTION_LEN,
        ensures
            final(self).wf(),
            frame_same(old(self), final(self)),
            !old(self).valid_id(inv_slot_id) ==> r == Err::<Option<Item>, Item>(item) && *final(self)
                == *old(self),
            old(self).valid_id(inv_slot_id) ==> {
                let k = inv_slot_id.spec_loadout_idx() as int;
                let j = inv_slot_id.spec_slot_idx() as int;
                let cur = old(self).at(inv_slot_id);
                if kind_is_stackable(item.item_def.kind) && cur is Some && same_def(cur.unwrap(), item) {
                    let x = cur.unwrap();
                    if x.amount + item.amount <= u32::MAX {
                        r == Ok::<Option<Item>, Item>(None) && final(self).sections() == old(self).written(
                            k,
                            j,
                            Some(with_amount(x, (x.amount + item.amount) as u32)),
                        )
                    } else {
                        r == Ok::<Option<Item>, Item>(Some(item)) && final(self).sections() == old(
                            self,
                        ).sections()
                    }
                } else {
                    r == Ok::<Option<Item>, Item>(cur) && final(self).sections() == old(self).written(
                        k,
                        j,
                        Some(item),
                    )
                }
            },
    {
        if item.is_stackable() {
            let k = inv_slot_id.loadout_idx();
            let j = inv_slot_id.slot_idx();
            if k < self.n_sections() && j < self.sec_len(k) {
                let ghost pre = *self;
                proof {
                    pre.lemma_at(inv_slot_id);
                }
                let cur = self.replace_at(k, j, None);
                proof {
                    Self::lemma_frame_lengths(&pre, self);
                }
                match cur {
                    Some(mut slot_item) => {
                        if slot_item == item {
                            let res = slot_item.increase_amount(item.amount());
                            let _ = self.replace_at(k, j, Some(slot_item));
                            proof {
                                assert(self.sections() =~~= pre.written(k as int, j as int, Some(slot_item)));
                            }
                            match res {
                                Ok(()) => Ok(None),
                                Err(_) => {
                                    assert(self.sections() =~~= pre.sections());
                                    Ok(Some(item))
                                },
                            }
                        } else {
                            let _ = self.replace_at(k, j, Some(item));
                            proof {
                                assert(self.sections() =~~= pre.written(k as int, j as int, Some(item)));
                            }
                            Ok(Some(slot_item))
                        }
                    },
                    None => {
                        let _ = self.replace_at(k, j, Some(item));
                        proof {
                            assert(self.sections() =~~= pre.written(k as int, j as int, Some(item)));
                        }
                        Ok(None)
                    },
                }
            } else {
                Err(item)
            }
        } else {
            self.insert_at(inv_slot_id, item)
        }
    }

    /// Remove just one item from the slot
    pub fn take(&mut self, inv_slot_id: InvSlotId, msm: &MaterialStatManifest) -> (r: Option<Item>)
        requires
            old(self).wf(),
        ensures
            final(self).wf(),
            frame_same(old(self), final(self)),
            !(old(self).valid_id(inv_slot_id) && old(self).at(inv_slot_id) is Some) ==> r is None
                && *final(self) == *old(self),
            old(self).valid_id(inv_slot_id) && old(self).at(inv_slot_id) is Some ==> {
                let k = inv_slot_id.spec_loadout_idx() as int;
                let j = inv_slot_id.spec_slot_idx() as int;
                let x = old(self).at(inv_slot_id).unwrap();
                if kind_is_stackable(x.item_def.kind) && x.amount > 1 {
                    &&& r is Some
                    &&& def_eq(r.unwrap().item_def, x.item_def)
                    &&& r.unwrap().amount == 1
                    &&& r.unwrap().slots@.len() == x.item_def.slots
                    &&& all_none(r.unwrap().slots@)
                    &&& final(self).sections() == old(self).written(k, j, Some(with_amount(x, (x.amount - 1) as u32)))
                } else {
                    r == Some(x) && final(self).sections() == old(self).written(k, j, None)
                }
            },
    {
        let k = inv_slot_id.loadout_idx();
        let j = inv_slot_id.slot_idx();
        if k < self.n_sections() && j < self.sec_len(k) && self.sec_slot(k, j).is_some() {
            let ghost pre = *self;
            proof {
                pre.lemma_at(inv_slot_id);
            }
            let cur = self.replace_at(k, j, None);
            proof {
                Self::lemma_frame_lengths(&pre, self);
            }
            match cur {
                Some(mut item) => {
                    let mut return_item = item.duplicate(msm);
                    if item.is_stackable() && item.amount() > 1 {
                        let _ = item.decrease_amount(1);
                        let _ = return_item.set_amount(1);
                        let _ = self.replace_at(k, j, Some(item));
                        proof {
                            assert(self.sections() =~~= pre.written(k as int, j as int, Some(item)));
                        }
                        Some(return_item)
                    } else {
                        Some(item)
                    }
                },
                None => {
                    assert(self.sections() =~~= pre.sections());
                    None
                },
            }
        } else {
            None
        }
    }

    /// Takes half of the items from a slot in the inventory
    pub fn take_half(&mut self, inv_slot_id: InvSlotId, msm: &MaterialStatManifest) -> (r: Option<Item>)
        requires
            old(self).wf(),
        ensures
            final(self).wf(),
            frame_same(old(self), final(self)),
            !(old(self).valid_id(inv_slot_id) && old(self).at(inv_slot_id) is Some) ==> r is None
                && *final(self) == *old(self),
            old(self).valid_id(inv_slot_id) && old(self).at(inv_slot_id) is Some ==> {
                let k = inv_slot_id.spec_loadout_idx() as int;
                let j = inv_slot_id.spec_slot_idx() as int;
                let x = old(self).at(inv_slot_id).unwrap();
                if kind_is_stackable(x.item_def.kind) && x.amount > 1 {
                    &&& r is Some
                    &&& def_eq(r.unwrap().item_def, x.item_def)
                    &&& r.unwrap().amount == x.amount / 2
                    &&& r.unwrap().slots@.len() == x.item_def.slots
                    &&& all_none(r.unwrap().slots@)
                    &&& final(self).sections() == old(self).written(k, j, Some(with_amount(x, (x.amount - x.amount / 2) as u32)))
                } else {
                    r == Some(x) && final(self).sections() == old(self).written(k, j, None)
                }
            },
    {
        let k = inv_slot_id.loadout_idx();
        let j = inv_slot_id.slot_idx();
        if k < self.n_sections() && j < self.sec_len(k) && self.sec_slot(k, j).is_some() {
            let ghost pre = *self;
            proof {
                pre.lemma_at(inv_slot_id);
            }
            let cur = self.replace_at(k, j, None);
            proof {
                Self::lemma_frame_lengths(&pre, self);
            }
            match cur {
                Some(mut item) => {
                    if item.is_stackable() && item.amount() > 1 {
                        let mut return_item = item.duplicate(msm);
                        let returning_amount = item.amount() / 2;
                        let _ = item.decrease_amount(returning_amount);
                        let _ = return_item.set_amount(returning_amount);
                        let _ = self.replace_at(k, j, Some(item));
                        proof {
                            assert(self.sections() =~~= pre.written(k as int, j as int, Some(item)));
                        }
                        Some(return_item)
                    } else {
                        Some(item)
                    }
                },
                None => {
                    assert(self.sections() =~~= pre.sections());
                    None
                },
            }
        } else {
            None
        }
    }

    /// Takes all items from the inventory
    pub fn drain(&mut self) -> (r: Vec<Item>)
        requires
            old(self).wf(),
        ensures
            final(self).wf(),
            frame_same(old(self), final(self)),
            r@ == somes(old(self).all()),
            all_none(final(self).all()),
    {
        let ghost pre = *self;
        let n = self.capacity();
        let mut out: Vec<Item> = Vec::new();
        let mut p: usize = 0;
        while p < n
            invariant
                self.wf(),
                frame_same(&pre, self),
                n == pre.all().len(),
                n == self.all().len(),
                p <= n,
                out@ == somes(pre.all().take(p as int)),
                forall|q: int| 0 <= q < p ==> (#[trigger] self.all()[q]) is None,
                forall|q: int| p <= q < n ==> #[trigger] self.all()[q] == pre.all()[q],
            decreases n - p,
        {
            let ghost before = *self;
            let (k, j) = self.locate(p);
            proof {
                seqs::lemma_flat_index(before.sections(), k as int, j as int);
            }
            let taken = self.replace_at(k, j, None);
            proof {
                Self::lemma_frame_trans(&pre, &before, self);
                Self::lemma_frame_lengths(&pre, self);
                assert(pre.all().take(p + 1).drop_last() =~= pre.all().take(p as int));
            }
            match taken {
                Some(it) => {
                    out.push(it);
                },
                None => {},
            }
            p += 1;
        }
        proof {
            assert(pre.all().take(n as int) =~= pre.all());
        }
        out
    }

    /// Determine how many of a particular item there is in the inventory.
    pub fn item_count(&self, item_def: &ItemDef) -> (n: u64)
        requires
            self.wf(),
        ensures
            n == amount_of(self.all(), item_def.item_definition_id@),
    {
        let all = self.slots();
        proof {
            self.lemma_capacity_bound();
        }
        let mut n: u64 = 0;
        let mut i: usize = 0;
        while i < all.len()
            invariant
                all@.len() == self.all().len(),
                all@.len() <= (LOADOUT_LEN + 1) * MAX_SECTION_LEN,
                forall|q: int| 0 <= q < all@.len() ==> *all@[q] == self.all()[q],
                i <= all@.len(),
                n == amount_of(self.all().take(i as int), item_def.item_definition_id@),
                n <= i * 0xFFFF_FFFFu64,
            decreases all@.len() - i,
        {
            proof {
                assert(self.all().take(i + 1).drop_last() =~= self.all().take(i as int));
                assert((i + 1) * 0xFFFF_FFFFu64 == i * 0xFFFF_FFFFu64 + 0xFFFF_FFFFu64) by (nonlinear_arith);
                assert(i * 0xFFFF_FFFFu64 <= (LOADOUT_LEN + 1) * MAX_SECTION_LEN * 0xFFFF_FFFFu64) by (nonlinear_arith)
                    requires i <= (LOADOUT_LEN + 1) * MAX_SECTION_LEN;
            }
            match all[i] {
                Some(it) => {
                    if it.is_same_item_def(item_def) {
                        n = n + it.amount() as u64;
                    }
                },
                None => {},
            }
            i += 1;
        }
        assert(self.all().take(i as int) =~= self.all());
        n
    }

    /// The number of slots is bounded by the layout.
    proof fn lemma_capacity_bound(&self)
        requires
            self.wf(),
        ensures
            self.all().len() <= (LOADOUT_LEN + 1) * MAX_SECTION_LEN,
    {
        self.lemma_sections();
        let secs = self.sections();
        assert forall|k: int| 0 <= k < secs.len() implies #[trigger] secs[k].len() <= MAX_SECTION_LEN by {
            if k > 0 {
                assert(secs[(k - 1) + 1] == opt_slots(self.equipment()[k - 1].slot));
            }
        }
        seqs::lemma_flat_len_le(secs, MAX_SECTION_LEN as int);
    }

    /// An iterator of all inventory slots and their position
    pub fn slots_with_id(&self) -> (r: Vec<(InvSlotId, &InvSlot)>)
        requires
            self.wf(),
        ensures
            r@.len() == self.all().len(),
            forall|i: int|
                0 <= i < r@.len() ==> self.valid_id((#[trigger] r@[i]).0) && self.pos(r@[i].0) == i
                    && *r@[i].1 == self.all()[i],
    {
        let ghost secs = self.sections();
        let n = self.n_sections();
        let mut out: Vec<(InvSlotId, &InvSlot)> = Vec::new();
        let mut k: usize = 0;
        while k < n
            invariant
                self.wf(),
                secs == self.sections(),
                n == secs.len(),
                n == LOADOUT_LEN + 1,
                k <= n,
                out@.len() == offset(secs, k as int),
                forall|i: int|
                    0 <= i < out@.len() ==> self.valid_id((#[trigger] out@[i]).0) && self.pos(out@[i].0)
                        == i && *out@[i].1 == flat(secs)[i],
            decreases n - k,
        {
            let len = self.sec_len(k);
            let mut j: usize = 0;
            while j < len
                invariant
                    self.wf(),
                    secs == self.sections(),
                    n == secs.len(),
                    n == LOADOUT_LEN + 1,
                    k < n,
                    len == secs[k as int].len(),
                    len <= MAX_SECTION_LEN,
                    j <= len,
                    out@.len() == offset(secs, k as int) + j,
                    forall|i: int|
                        0 <= i < out@.len() ==> self.valid_id((#[trigger] out@[i]).0) && self.pos(
                            out@[i].0,
                        ) == i && *out@[i].1 == flat(secs)[i],
                decreases len - j,
            {
                proof {
                    seqs::lemma_flat_index(secs, k as int, j as int);
                }
                let id = InvSlotId::new(k as u16, j as u16);
                out.push((id, self.sec_slot(k, j)));
                j += 1;
            }
            proof {
                seqs::lemma_flat_take_succ(secs, k as int);
            }
            k += 1;
        }
        proof {
            assert(secs.take(n as int) =~= secs);
        }
        out
    }

    /// Well-formedness read off the sections.
    proof fn lemma_wf_sections(&self)
        ensures
            self.wf() <==> (loadout_wf(self.equipment()) && self.base().len() <= MAX_SECTION_LEN
                && forall|k: int, j: int|
                0 <= k < self.sections().len() && 0 <= j < self.sections()[k].len() && (#[trigger] self.sections()[k][j]) is Some
                    ==> self.sections()[k][j].unwrap().slots@.len() <= MAX_SECTION_LEN),
    {
        let secs = self.sections();
        if self.wf() {
            assert forall|k: int, j: int|
                0 <= k < secs.len() && 0 <= j < secs[k].len() && (#[trigger] secs[k][j]) is Some implies secs[k][j].unwrap().slots@.len()
                    <= MAX_SECTION_LEN by {
                seqs::lemma_flat_index(secs, k, j);
            }
        }
        if loadout_wf(self.equipment()) && self.base().len() <= MAX_SECTION_LEN && forall|k: int, j: int|
            0 <= k < secs.len() && 0 <= j < secs[k].len() && (#[trigger] secs[k][j]) is Some ==> secs[k][j].unwrap().slots@.len()
                <= MAX_SECTION_LEN {
            assert forall|p: int|
                0 <= p < self.all().len() && (#[trigger] self.all()[p]) is Some implies self.all()[
                p
            ].unwrap().slots@.len() <= MAX_SECTION_LEN by {
                let kj = seqs::lemma_flat_locate(secs, p);
                seqs::lemma_flat_index(secs, kj.0, kj.1);
            }
        }
    }

    /// Changing one loadout entry to an item that fits keeps the inventory well formed.
    proof fn lemma_wf_after_entry_change(pre: &Inventory, post: &Inventory, k: int, o: Option<Item>)
        requires
            pre.wf(),
            0 <= k < LOADOUT_LEN,
            post.base() == pre.base(),
            post.equipment() == pre.equipment().update(k, LoadoutSlot { equip_slot: layout(k), slot: o }),
            opt_fits(o),
        ensures
            post.wf(),
            post.sections() == pre.sections().update(k + 1, opt_slots(o)),
    {
        pre.lemma_wf_sections();
        post.lemma_sections();
        pre.lemma_sections();
        assert(post.sections() =~= pre.sections().update(k + 1, opt_slots(o))) by {
            assert forall|kk: int| 0 <= kk < post.sections().len() implies #[trigger] post.sections()[kk]
                == pre.sections().update(k + 1, opt_slots(o))[kk] by {
                if kk > 0 {
                    assert(post.sections()[(kk - 1) + 1] == opt_slots(post.equipment()[kk - 1].slot));
                    assert(pre.sections()[(kk - 1) + 1] == opt_slots(pre.equipment()[kk - 1].slot));
                }
            }
        }
        assert forall|kk: int, j: int|
            0 <= kk < post.sections().len() && 0 <= j < post.sections()[kk].len() && (#[trigger] post.sections()[kk][j]) is Some
                implies post.sections()[kk][j].unwrap().slots@.len() <= MAX_SECTION_LEN by {
            if kk != k + 1 {
                assert(post.sections()[kk] == pre.sections()[kk]);
            }
        }
        assert forall|q: int| 0 <= q < LOADOUT_LEN implies #[trigger] opt_slots(post.equipment()[q].slot).len() <= MAX_SECTION_LEN by {
            if q != k {
                assert(post.equipment()[q] == pre.equipment()[q]);
            }
        }
        post.lemma_wf_sections();
    }

    /// Returns a reference to the item (if any) equipped in the given EquipSlot
    pub fn equipped(&self, equip_slot: EquipSlot) -> (r: Option<&Item>)
        requires
            self.wf(),
        ensures
            opt_ref(r, self.equipment()[layout_index(equip_slot)].slot),
    {
        self.loadout.equipped(equip_slot)
    }

    /// The items equipped, in loadout order.
    pub fn equipped_items(&self) -> (r: Vec<&Item>)
        ensures
            r@.len() == somes(self.equipment().map_values(|s: LoadoutSlot| s.slot)).len(),
            forall|i: int|
                0 <= i < r@.len() ==> *r@[i] == somes(self.equipment().map_values(|s: LoadoutSlot| s.slot))[i],
    {
        self.loadout.items()
    }

    /// Every loadout entry's persistence key with the item equipped there.
    pub fn loadout_items_with_persistence_key(&self) -> (r: Vec<(&str, Option<&Item>)>)
        requires
            self.wf(),
        ensures
            r@.len() == LOADOUT_LEN,
            forall|k: int|
                0 <= k < LOADOUT_LEN ==> (#[trigger] r@[k]).0@ == loadout::persistence_key_spec(layout(k))
                    && opt_ref(r@[k].1, self.equipment()[k].slot),
    {
        self.loadout.items_with_persistence_key()
    }

    /// Returns the range of inventory slot indexes that a particular equipped
    /// item provides (used for UI highlighting of inventory slots when hovering
    /// over a loadout item)
    pub fn get_slot_range_for_equip_slot(&self, equip_slot: EquipSlot) -> (r: Option<std::ops::Range<usize>>)
        requires
            self.wf(),
        ensures
            ({
                let k = layout_index(equip_slot) + 1;
                let len = self.sections()[k].len();
                if len > 0 {
                    r == Some(
                        std::ops::Range {
                            start: offset(self.sections(), k) as usize,
                            end: (offset(self.sections(), k) + len) as usize,
                        },
                    )
                } else {
                    r is None
                }
            }),
    {
        let offset_base = self.slots.len();
        proof {
            self.lemma_sections();
            loadout::lemma_layout_index(equip_slot);
            let k = layout_index(equip_slot);
            let sof = sections_of(self.equipment());
            assert(self.sections().take(k + 1) =~= seq![self.base()] + sof.take(k));
            seqs::lemma_flat_concat(seq![self.base()], sof.take(k));
            seqs::lemma_flat_single(self.base());
            assert(self.sections()[k + 1] == sof[k]);
            self.lemma_capacity_bound();
            seqs::lemma_flat_len_take(self.sections(), k + 1);
            seqs::lemma_flat_len_take(self.sections(), k + 2);
            seqs::lemma_flat_take_succ(self.sections(), k + 1);
        }
        match self.loadout.slot_range_for_equip_slot(equip_slot) {
            Some(range) => Some(std::ops::Range { start: range.start + offset_base, end: range.end + offset_base }),
            None => None,
        }
    }

    /// Returns the number of free slots in the inventory ignoring any slots
    /// granted by the item (if any) equipped in the provided EquipSlot.
    pub fn free_slots_minus_equipped_item(&self, equip_slot: EquipSlot) -> (n: usize)
        requires
            self.wf(),
        ensures
            n == count_none(self.all()) - count_none(self.sections()[layout_index(equip_slot) + 1]),
    {
        let ghost secs = self.sections();
        let x = match self.loadout.loadout_idx_for_equip_slot(equip_slot) {
            Some(i) => i + 1,
            None => 0,
        };
        proof {
            loadout::lemma_layout_index(equip_slot);
        }
        let nsec = self.n_sections();
        let mut n: usize = 0;
        let mut k: usize = 0;
        proof {
            self.lemma_capacity_bound();
        }
        while k < nsec
            invariant
                self.wf(),
                secs == self.sections(),
                nsec == secs.len(),
                0 < x < nsec,
                k <= nsec,
                n + (if k > x { count_none(secs[x as int]) } else { 0 }) == count_none(flat(secs.take(k as int))),
                flat(secs).len() <= (LOADOUT_LEN + 1) * MAX_SECTION_LEN,
            decreases nsec - k,
        {
            let len = self.sec_len(k);
            let mut c: usize = 0;
            let mut j: usize = 0;
            while j < len
                invariant
                    self.wf(),
                    secs == self.sections(),
                    k < nsec,
                    nsec == secs.len(),
                    len == secs[k as int].len(),
                    len <= MAX_SECTION_LEN,
                    j <= len,
                    c == count_none(secs[k as int].take(j as int)),
                    c <= j,
                decreases len - j,
            {
                proof {
                    seqs::lemma_count_push(secs[k as int].take(j as int), secs[k as int][j as int]);
                    assert(secs[k as int].take(j as int).push(secs[k as int][j as int]) =~= secs[k as int].take(j + 1));
                }
                if self.sec_slot(k, j).is_none() {
                    c += 1;
                }
                j += 1;
            }
            proof {
                assert(secs[k as int].take(j as int) =~= secs[k as int]);
                seqs::lemma_flat_take_succ(secs, k as int);
                seqs::lemma_count_concat(flat(secs.take(k as int)), secs[k as int]);
                seqs::lemma_flat_len_take(secs, k as int);
                seqs::lemma_flat_len_take(secs, k + 1);
                seqs::lemma_count_total(flat(secs.take(k + 1)));
            }
            if k != x {
                n = n + c;
            }
            k += 1;
        }
        proof {
            assert(secs.take(nsec as int) =~= secs);
        }
        n
    }

    /// Replaces the loadout item (if any) in the given EquipSlot with the
    /// provided item, returning the item that was previously in the slot.
    pub fn replace_loadout_item(&mut self, equip_slot: EquipSlot, replacement_item: Option<Item>) -> (r: Option<Item>)
        requires
            old(self).wf(),
            opt_fits(replacement_item),
        ensures
            final(self).wf(),
            final(self).base() == old(self).base(),
            final(self).equipment() == old(self).equipment().update(
                layout_index(equip_slot),
                LoadoutSlot { equip_slot, slot: replacement_item },
            ),
            r == old(self).equipment()[layout_index(equip_slot)].slot,
    {
        let ghost pre = *self;
        let r = self.loadout.swap(equip_slot, replacement_item);
        proof {
            loadout::lemma_layout_index(equip_slot);
            Self::lemma_wf_after_entry_change(&pre, self, layout_index(equip_slot), replacement_item);
        }
        r
    }

    /// Attempts to equip the item into a compatible, unpopulated loadout slot.
    /// If no slot is available the item is returned.
    pub fn try_equip(&mut self, item: Item) -> (r: Result<(), Item>)
        requires
            old(self).wf(),
            item_fits(item),
        ensures
            final(self).wf(),
            final(self).base() == old(self).base(),
            match r {
                Ok(()) => exists|k: int|
                    0 <= k < LOADOUT_LEN && loadout::suitable(item.item_def.kind, k) && (#[trigger] old(self).equipment()[k]).slot is None
                        && (forall|q: int|
                        0 <= q < k && loadout::suitable(item.item_def.kind, q) ==> (#[trigger] old(self).equipment()[q]).slot is Some)
                        && final(self).equipment() == old(self).equipment().update(
                        k,
                        LoadoutSlot { equip_slot: layout(k), slot: Some(item) },
                    ),
                Err(back) => back == item && final(self).equipment() == old(self).equipment() && forall|q: int|
                    0 <= q < LOADOUT_LEN && loadout::suitable(item.item_def.kind, q) ==> (#[trigger] old(self).equipment()[q]).slot is Some,
            },
    {
        let ghost pre = *self;
        let r = self.loadout.try_equip(item);
        proof {
            if r is Ok {
                let k = choose|k: int|
                    0 <= k < LOADOUT_LEN && loadout::suitable(item.item_def.kind, k) && (#[trigger] pre.equipment()[k]).slot is None
                        && (forall|q: int|
                        0 <= q < k && loadout::suitable(item.item_def.kind, q) ==> (#[trigger] pre.equipment()[q]).slot is Some)
                        && self.equipment() == pre.equipment().update(
                        k,
                        LoadoutSlot { equip_slot: layout(k), slot: Some(item) },
                    );
                Self::lemma_wf_after_entry_change(&pre, self, k, Some(item));
            } else {
                assert(self.sections() =~= pre.sections());
            }
        }
        r
    }

    /// Whether the item at `inv_slot_id` may be swapped with the one equipped in
    /// `equip_slot`: the slot exists, the equipment slot accepts the item,
    /// and an equipped item moving into an empty slot still finds a free
    /// slot once its own slots are gone.
    pub open spec fn can_swap_spec(&self, inv_slot_id: InvSlotId, equip_slot: EquipSlot) -> bool {
        &&& self.valid_id(inv_slot_id)
        &&& self.at(inv_slot_id) is Some ==> slot_holds(equip_slot, self.at(inv_slot_id).unwrap().item_def.kind)
        &&& self.at(inv_slot_id) is None ==> count_none(self.all()) - count_none(
            self.sections()[layout_index(equip_slot) + 1],
        ) != 0
    }

    /// Determines if an inventory and loadout slot can be swapped, taking into
    /// account whether there will be free space in the inventory for the
    /// loadout item once any slots that were provided by it have been
    /// removed.
    pub fn can_swap(&self, inv_slot_id: InvSlotId, equip_slot: EquipSlot) -> (b: bool)
        requires
            self.wf(),
        ensures
            b == self.can_swap_spec(inv_slot_id, equip_slot),
    {
        let holds = match self.get(inv_slot_id) {
            Some(item) => equip_slot.can_hold(&item.item_def.kind),
            None => true,
        };
        if !holds {
            return false;
        }
        match self.slot(inv_slot_id) {
            Some(inv_slot) => {
                if inv_slot.is_none() && self.free_slots_minus_equipped_item(equip_slot) == 0 {
                    return false;
                }
            },
            None => {
                return false;
            },
        }
        true
    }

    /// The sections once the item at `inv_slot_id` has moved into loadout
    /// entry `layout_index(equip_slot)`, before the previously equipped item
    /// is put back.
    pub open spec fn swapped_sections(&self, inv_slot_id: InvSlotId, equip_slot: EquipSlot) -> Seq<Seq<Option<Item>>> {
        let s1 = self.written(inv_slot_id.spec_loadout_idx() as int, inv_slot_id.spec_slot_idx() as int, None);
        s1.update(layout_index(equip_slot) + 1, opt_slots(self.at(inv_slot_id)))
    }

    /// The slots and returned items after swapping the item at `inv_slot_id`
    /// with the one equipped in `equip_slot`, where `drained` is the
    /// previously equipped item with its slots emptied: it goes back to
    /// `inv_slot_id` when that slot still exists, otherwise it is added
    /// like any other item; then what it held is added.
    pub open spec fn swap_result(&self, inv_slot_id: InvSlotId, equip_slot: EquipSlot, drained: Item) -> (Seq<Option<Item>>, Seq<Item>) {
        let k = layout_index(equip_slot) + 1;
        let s1 = self.written(inv_slot_id.spec_loadout_idx() as int, inv_slot_id.spec_slot_idx() as int, None);
        let s2 = self.swapped_sections(inv_slot_id, equip_slot);
        let li = inv_slot_id.spec_loadout_idx() as int;
        let si = inv_slot_id.spec_slot_idx() as int;
        let all3 = if li < s2.len() && si < s2[li].len() {
            flat(s2.update(li, s2[li].update(si, Some(drained))))
        } else {
            push_spec(flat(s2), drained, drained).0
        };
        push_all_spec(all3, somes(s1[k]))
    }

    /// The previously equipped item finds a place when its own slot is gone.
    pub open spec fn swap_fits(&self, inv_slot_id: InvSlotId, equip_slot: EquipSlot) -> bool {
        let s2 = self.swapped_sections(inv_slot_id, equip_slot);
        let li = inv_slot_id.spec_loadout_idx() as int;
        let si = inv_slot_id.spec_slot_idx() as int;
        let b = self.equipment()[layout_index(equip_slot)].slot;
        self.can_swap_spec(inv_slot_id, equip_slot) && b is Some && !(li < s2.len() && si < s2[li].len())
            ==> push_spec(flat(s2), b.unwrap(), b.unwrap()).1 is None
    }

    /// What swapping an inventory slot with an equipment slot does.
    pub open spec fn swap_post(&self, inv_slot_id: InvSlotId, equip_slot: EquipSlot, post: &Inventory, r: Seq<Item>) -> bool {
        if self.can_swap_spec(inv_slot_id, equip_slot) {
            let k = layout_index(equip_slot);
            let b = self.equipment()[k].slot;
            &&& frame_after(self, post, k, self.at(inv_slot_id))
            &&& b is None ==> post.all() == flat(self.swapped_sections(inv_slot_id, equip_slot)) && r.len() == 0
            &&& b is Some ==> exists|drained: Item|
                emptied(b.unwrap(), drained) && (post.all(), r) == self.swap_result(inv_slot_id, equip_slot, drained)
        } else {
            post.base() == self.base() && post.equipment() == self.equipment() && r.len() == 0
        }
    }

    /// Swap item in an inventory slot with one in a loadout slot.
    pub fn swap_inventory_loadout(&mut self, inv_slot_id: InvSlotId, equip_slot: EquipSlot) -> (r: Vec<Item>)
        requires
            old(self).wf(),
            old(self).valid_id(inv_slot_id) ==> opt_fits(old(self).at(inv_slot_id)),
            old(self).swap_fits(inv_slot_id, equip_slot),
        ensures
            final(self).wf(),
            old(self).swap_post(inv_slot_id, equip_slot, final(self), r@),
    {
        if !self.can_swap(inv_slot_id, equip_slot) {
            return Vec::new();
        }
        let ghost pre = *self;
        proof {
            pre.lemma_at(inv_slot_id);
            loadout::lemma_layout_index(equip_slot);
        }
        let from_inv = self.remove(inv_slot_id);
        let ghost s1_inv = *self;
        proof {
            Self::lemma_frame_lengths(&pre, self);
            assert(self.equipment()[layout_index(equip_slot)].equip_slot == equip_slot);
            s1_inv.lemma_sections();
            s1_inv.lemma_wf_sections();
        }
        let from_equip = self.loadout.swap(equip_slot, from_inv);
        let ghost s2_inv = *self;
        proof {
            assert(s2_inv.equipment() == s1_inv.equipment().update(layout_index(equip_slot), LoadoutSlot { equip_slot: layout(layout_index(equip_slot)), slot: from_inv }));
            Self::lemma_wf_after_entry_change(&s1_inv, self, layout_index(equip_slot), from_inv);
            assert(self.sections() == pre.swapped_sections(inv_slot_id, equip_slot));
            assert(opt_slots(from_equip) == s1_inv.sections()[layout_index(equip_slot) + 1]);
        }
        let unloaded: Vec<Item> = match from_equip {
            Some(mut fe) => {
                let ghost fe_old = fe;
                let items = fe.drain();
                proof {
                    lemma_somes_members(fe_old.slots@);
                    assert forall|i: int| 0 <= i < items@.len() implies (#[trigger] items@[i]).slots@.len() <= MAX_SECTION_LEN by {
                        let j = choose|j: int| 0 <= j < fe_old.slots@.len() && fe_old.slots@[j] == Some(items@[i]);
                        assert(s1_inv.sections()[layout_index(equip_slot) + 1][j] == Some(items@[i]));
                    }
                    assert(emptied(pre.equipment()[layout_index(equip_slot)].slot.unwrap(), fe));
                }
                let ghost s_before_insert = *self;
                match self.insert_at(inv_slot_id, fe) {
                    Err(returned) => {
                        let _ = self.push(returned);
                    },
                    Ok(_) => {},
                }
                proof {
                    Self::lemma_frame_trans(&s2_inv, &s_before_insert, self);
                }
                items
            },
            None => Vec::new(),
        };
        let ghost s3_inv = *self;
        let r = match self.push_all(unloaded) {
            Err(Error::Full(leftovers)) => leftovers,
            Ok(()) => Vec::new(),
        };
        proof {
            Self::lemma_frame_trans(&s2_inv, &s3_inv, self);
            Self::lemma_frame_after_chain(&pre, &s1_inv, &s2_inv, self, layout_index(equip_slot), from_inv);
            if from_equip is None {
                assert(push_all_spec(s3_inv.all(), Seq::<Item>::empty()) == (s3_inv.all(), Seq::<Item>::empty()));
            } else {
                assert(r@ =~= push_all_spec(s3_inv.all(), unloaded@).1);
            }
        }
        r
    }

    proof fn lemma_frame_after_chain(pre: &Inventory, s1: &Inventory, s2: &Inventory, fin: &Inventory, k: int, x: Option<Item>)
        requires
            pre.wf(),
            0 <= k < LOADOUT_LEN,
            frame_same(pre, s1),
            s2.base() == s1.base(),
            s2.equipment() == s1.equipment().update(k, LoadoutSlot { equip_slot: layout(k), slot: x }),
            frame_same(s2, fin),
        ensures
            frame_after(pre, fin, k, x),
    {
        assert forall|q: int| 0 <= q < pre.equipment().len() implies #[trigger] fin.equipment()[q].equip_slot == pre.equipment()[q].equip_slot by {
            assert(s2.equipment()[q] == s2.equipment()[q]);
            assert(s1.equipment()[q] == s1.equipment()[q]);
        }
        assert forall|q: int| 0 <= q < pre.equipment().len() implies {
            let want = if q == k { x } else { pre.equipment()[q].slot };
            &&& (#[trigger] fin.equipment()[q].slot is Some <==> want is Some)
            &&& want is Some ==> {
                &&& fin.equipment()[q].slot.unwrap().item_def == want.unwrap().item_def
                &&& fin.equipment()[q].slot.unwrap().amount == want.unwrap().amount
                &&& fin.equipment()[q].slot.unwrap().slots@.len() == want.unwrap().slots@.len()
            }
        } by {
            assert(s2.equipment()[q] == s2.equipment()[q]);
            assert(s1.equipment()[q] == s1.equipment()[q]);
        }
    }

    /// `mid` is this inventory with its hands exchanged when `target` is the
    /// main hand, and unchanged otherwise.
    pub open spec fn equip_stage(&self, target: EquipSlot, mid: &Inventory) -> bool {
        &&& mid.base() == self.base()
        &&& mid.equipment() == if target == EquipSlot::Mainhand {
            loadout::swap_entries_spec(self.equipment(), EquipSlot::Mainhand, EquipSlot::Offhand)
        } else {
            self.equipment()
        }
    }

    /// The equipment slot the item at `inv_slot` would go to, if any.
    pub open spec fn equip_target_of(&self, inv_slot: InvSlotId, t: Option<EquipSlot>) -> bool {
        if self.valid_id(inv_slot) && self.at(inv_slot) is Some {
            loadout::equip_target(self.equipment(), self.at(inv_slot).unwrap().item_def.kind, t)
        } else {
            t is None
        }
    }

    /// What equipping the item at `inv_slot` does.
    pub open spec fn equip_post(&self, inv_slot: InvSlotId, post: &Inventory, r: Seq<Item>) -> bool {
        exists|t: Option<EquipSlot>| #[trigger] self.equip_target_of(inv_slot, t) && match t {
            None => post.base() == self.base() && post.equipment() == self.equipment() && r.len() == 0,
            Some(target) => exists|mid: Inventory|
                #[trigger] self.equip_stage(target, &mid) && mid.swap_post(inv_slot, target, post, r),
        }
    }

    /// The swap that equipping performs stays within the slot addresses and
    /// finds room for the previously equipped item.
    pub open spec fn equip_fits(&self, inv_slot: InvSlotId) -> bool {
        forall|target: EquipSlot, mid: Inventory|
            #[trigger] self.equip_stage(target, &mid) ==> (mid.valid_id(inv_slot) ==> opt_fits(mid.at(inv_slot)))
                && mid.swap_fits(inv_slot, target)
    }

    /// Equip an item from a slot in inventory. The currently equipped item will
    /// go into inventory. If the item is going to mainhand, put mainhand in
    /// offhand and place offhand into inventory.
    pub fn equip(&mut self, inv_slot: InvSlotId) -> (r: Vec<Item>)
        requires
            old(self).wf(),
            old(self).equip_fits(inv_slot),
        ensures
            final(self).wf(),
            old(self).equip_post(inv_slot, final(self), r@),
    {
        let ghost pre = *self;
        let target = match self.get(inv_slot) {
            Some(item) => self.loadout.get_slot_to_equip_into(&item.item_def.kind),
            None => None,
        };
        proof {
            assert(pre.equip_target_of(inv_slot, target));
        }
        match target {
            Some(equip_slot) => {
                if equip_slot == EquipSlot::Mainhand {
                    self.loadout.swap_slots(EquipSlot::Mainhand, EquipSlot::Offhand);
                }
                proof {
                    assert(pre.equip_stage(equip_slot, self));
                    if equip_slot == EquipSlot::Mainhand {
                        Self::lemma_entries_swap_wf(&pre, self, EquipSlot::Mainhand, EquipSlot::Offhand);
                    } else {
                        assert(self.sections() =~= pre.sections());
                    }
                }
                let r = self.swap_inventory_loadout(inv_slot, equip_slot);
                r
            },
            None => Vec::new(),
        }
    }

    /// Exchanging the items of two equipment slots keeps the inventory well
    /// formed.
    proof fn lemma_entries_swap_wf(pre: &Inventory, mid: &Inventory, a: EquipSlot, b: EquipSlot)
        requires
            pre.wf(),
            mid.base() == pre.base(),
            mid.equipment() == loadout::swap_entries_spec(pre.equipment(), a, b),
        ensures
            mid.wf(),
    {
        loadout::lemma_layout_index(a);
        loadout::lemma_layout_index(b);
        let ka = layout_index(a);
        let kb = layout_index(b);
        pre.lemma_wf_sections();
        pre.lemma_sections();
        mid.lemma_sections();
        assert forall|q: int| 0 <= q < LOADOUT_LEN implies #[trigger] opt_slots(mid.equipment()[q].slot).len() <= MAX_SECTION_LEN by {
            assert(opt_slots(pre.equipment()[ka].slot).len() <= MAX_SECTION_LEN);
            assert(opt_slots(pre.equipment()[kb].slot).len() <= MAX_SECTION_LEN);
            assert(opt_slots(pre.equipment()[q].slot).len() <= MAX_SECTION_LEN);
        }
        assert forall|kk: int, j: int|
            0 <= kk < mid.sections().len() && 0 <= j < mid.sections()[kk].len() && (#[trigger] mid.sections()[kk][j]) is Some
                implies mid.sections()[kk][j].unwrap().slots@.len() <= MAX_SECTION_LEN by {
            if kk > 0 {
                assert(mid.sections()[(kk - 1) + 1] == opt_slots(mid.equipment()[kk - 1].slot));
                assert(pre.sections()[ka + 1] == opt_slots(pre.equipment()[ka].slot));
                assert(pre.sections()[kb + 1] == opt_slots(pre.equipment()[kb].slot));
                assert(pre.sections()[(kk - 1) + 1] == opt_slots(pre.equipment()[kk - 1].slot));
            }
        }
        mid.lemma_wf_sections();
    }

    /// What swapping an inventory slot with an equipment slot requires, for
    /// either order of the two.
    pub open spec fn swap_any_fits(&self, slot_a: Slot, slot_b: Slot) -> bool {
        match (slot_a, slot_b) {
            (Slot::Inventory(i), Slot::Equip(e)) => (self.valid_id(i) ==> opt_fits(self.at(i))) && self.swap_fits(i, e),
            (Slot::Equip(e), Slot::Inventory(i)) => (self.valid_id(i) ==> opt_fits(self.at(i))) && self.swap_fits(i, e),
            _ => true,
        }
    }

    /// Swaps items from two slots, regardless of if either is inventory or
    /// loadout.
    pub fn swap(&mut self, slot_a: Slot, slot_b: Slot) -> (r: Vec<Item>)
        requires
            old(self).wf(),
            old(self).swap_any_fits(slot_a, slot_b),
        ensures
            final(self).wf(),
            match (slot_a, slot_b) {
                (Slot::Inventory(a), Slot::Inventory(b)) => {
                    &&& r@.len() == 0
                    &&& frame_same(old(self), final(self))
                    &&& old(self).valid_id(a) && old(self).valid_id(b) ==> final(self).sections() == old(self).slots_swapped(a, b)
                    &&& !(old(self).valid_id(a) && old(self).valid_id(b)) ==> *final(self) == *old(self)
                },
                (Slot::Inventory(i), Slot::Equip(e)) => old(self).swap_post(i, e, final(self), r@),
                (Slot::Equip(e), Slot::Inventory(i)) => old(self).swap_post(i, e, final(self), r@),
                (Slot::Equip(a), Slot::Equip(b)) => {
                    &&& r@.len() == 0
                    &&& final(self).base() == old(self).base()
                    &&& final(self).equipment() == loadout::swap_entries_spec(old(self).equipment(), a, b)
                },
            },
    {
        match (slot_a, slot_b) {
            (Slot::Inventory(a), Slot::Inventory(b)) => {
                self.swap_slots(a, b);
                Vec::new()
            },
            (Slot::Inventory(inv_slot), Slot::Equip(equip_slot)) => self.swap_inventory_loadout(inv_slot, equip_slot),
            (Slot::Equip(equip_slot), Slot::Inventory(inv_slot)) => self.swap_inventory_loadout(inv_slot, equip_slot),
            (Slot::Equip(a), Slot::Equip(b)) => {
                let ghost pre = *self;
                self.loadout.swap_slots(a, b);
                proof {
                    Self::lemma_entries_swap_wf(&pre, self, a, b);
                }
                Vec::new()
            },
        }
    }

    /// Whether the inventory has an empty slot for a picked up item that does
    /// not stack and for each item it holds.
    pub open spec fn pickup_room(&self, item: Item) -> bool {
        count_none(self.all()) >= count_some(item.slots@) + 1
    }

    /// None of the items held by a picked up item is refused.
    pub open spec fn pickup_fits(&self, item: Item) -> bool {
        !kind_is_stackable(item.item_def.kind) && self.pickup_room(item) ==> push_all_spec(
            self.all(),
            somes(item.slots@),
        ).1.len() == 0
    }

    /// Handles picking up an item, unloading any items inside the item being
    /// picked up and pushing them to the inventory to ensure that items
    /// containing items aren't inserted into the inventory as this is not
    /// currently supported.
    pub fn pickup_item(&mut self, item: Item) -> (r: Result<(), Item>)
        requires
            old(self).wf(),
            item_fits(item),
            old(self).pickup_fits(item),
        ensures
            final(self).wf(),
            frame_same(old(self), final(self)),
            kind_is_stackable(item.item_def.kind) ==> final(self).all() == push_spec(old(self).all(), item, item).0
                && match push_spec(old(self).all(), item, item).1 {
                Some(back) => r == Err::<(), Item>(back),
                None => r is Ok,
            },
            !kind_is_stackable(item.item_def.kind) && !old(self).pickup_room(item) ==> r == Err::<(), Item>(item)
                && *final(self) == *old(self),
            !kind_is_stackable(item.item_def.kind) && old(self).pickup_room(item) ==> r is Ok && exists|drained: Item|
                #[trigger] emptied(item, drained) && final(self).all() == push_spec(
                    push_all_spec(old(self).all(), somes(item.slots@)).0,
                    drained,
                    drained,
                ).0,
    {
        let mut item = item;
        if item.is_stackable() {
            return match self.push(item) {
                Some(back) => Err(back),
                None => Ok(()),
            };
        }
        proof {
            seqs::lemma_count_total(item.slots@);
        }
        if self.free_slots() < item.populated_slots() + 1 {
            return Err(item);
        }
        let ghost pre = *self;
        let ghost item_old = item;
        let inner = item.drain();
        proof {
            lemma_somes_members(item_old.slots@);
            lemma_somes_len(item_old.slots@);
            assert forall|i: int| 0 <= i < inner@.len() implies (#[trigger] inner@[i]).slots@.len() <= MAX_SECTION_LEN by {
                let j = choose|j: int| 0 <= j < item_old.slots@.len() && item_old.slots@[j] == Some(inner@[i]);
            }
        }
        // `pickup_fits` rules out a refusal here.
        let _ = self.push_all(inner);
        let ghost mid = *self;
        proof {
            lemma_push_all_count(pre.all(), inner@);
            lemma_push_count(mid.all(), item, item);
        }
        let _ = self.push(item);
        proof {
            Self::lemma_frame_trans(&pre, &mid, self);
            assert(emptied(item_old, item));
        }
        Ok(())
    }

    /// The item in the slot at `id`, if the slot exists and holds one.
    pub open spec fn item_at(&self, id: InvSlotId) -> Option<Item> {
        if self.valid_id(id) {
            self.at(id)
        } else {
            None
        }
    }

    /// Number of slots an optional item provides.
    pub open spec fn slots_of(o: Option<Item>) -> int {
        match o {
            Some(it) => it.slots@.len() as int,
            None => 0,
        }
    }

    /// Free slots after equipping the item at `inv_slot` into `target`: the
    /// slots of the item replaced there are lost, those of the equipped item
    /// gained, and when nothing is replaced the item's own slot is freed.
    pub open spec fn free_after_equip_with(&self, inv_slot: InvSlotId, target: Option<EquipSlot>) -> int {
        let replaced = match target {
            Some(e) => self.equipment()[layout_index(e)].slot,
            None => None,
        };
        let gain: int = if replaced is None { 1 } else { 0 };
        self.all().len() - Self::slots_of(replaced) + Self::slots_of(self.item_at(inv_slot)) - count_some(self.all()) + gain
    }

    /// Item slot counts and the capacity are far below `i32::MAX`.
    proof fn lemma_counts_small(&self)
        requires
            self.wf(),
        ensures
            self.all().len() <= (LOADOUT_LEN + 1) * MAX_SECTION_LEN,
            count_some(self.all()) <= self.all().len(),
            forall|id: InvSlotId| #[trigger] Self::slots_of(self.item_at(id)) <= MAX_SECTION_LEN,
            forall|k: int| 0 <= k < LOADOUT_LEN ==> #[trigger] Self::slots_of(self.equipment()[k].slot) <= MAX_SECTION_LEN,
    {
        self.lemma_capacity_bound();
        seqs::lemma_count_total(self.all());
        assert forall|id: InvSlotId| #[trigger] Self::slots_of(self.item_at(id)) <= MAX_SECTION_LEN by {
            if self.valid_id(id) {
                self.lemma_at(id);
            }
        }
        assert forall|k: int| 0 <= k < LOADOUT_LEN implies #[trigger] Self::slots_of(self.equipment()[k].slot) <= MAX_SECTION_LEN by {
            assert(opt_slots(self.equipment()[k].slot).len() <= MAX_SECTION_LEN);
        }
    }

    /// Determines how many free inventory slots will be left after equipping an
    /// item (because it could be swapped with an already equipped item that
    /// provides more inventory slots than the item being equipped)
    pub fn free_after_equip(&self, inv_slot: InvSlotId) -> (n: i32)
        requires
            self.wf(),
        ensures
            exists|t: Option<EquipSlot>| #[trigger] self.equip_target_of(inv_slot, t) && n == self.free_after_equip_with(inv_slot, t),
    {
        let target = match self.get(inv_slot) {
            Some(item) => self.loadout.get_slot_to_equip_into(&item.item_def.kind),
            None => None,
        };
        proof {
            assert(self.equip_target_of(inv_slot, target));
            self.lemma_counts_small();
            if target is Some {
                loadout::lemma_layout_index(target.unwrap());
            }
        }
        let (inv_slot_for_equipped, slots_from_equipped): (i32, usize) = match target {
            Some(equip_slot) => match self.equipped(equip_slot) {
                Some(item) => (0, item.slots.len()),
                None => (1, 0),
            },
            None => (1, 0),
        };
        let slots_from_inv: usize = match self.get(inv_slot) {
            Some(item) => item.slots.len(),
            None => 0,
        };
        let capacity = self.capacity();
        let populated = self.populated_slots();
        proof {
            let replaced = match target {
                Some(e) => self.equipment()[layout_index(e)].slot,
                None => None,
            };
            assert(slots_from_equipped == Self::slots_of(replaced));
            assert(slots_from_inv == Self::slots_of(self.item_at(inv_slot)));
            assert(Self::slots_of(self.item_at(inv_slot)) <= MAX_SECTION_LEN);
            if target is Some {
                assert(Self::slots_of(self.equipment()[layout_index(target.unwrap())].slot) <= MAX_SECTION_LEN);
            }
        }
        capacity as i32 - slots_from_equipped as i32 + slots_from_inv as i32 - populated as i32 + inv_slot_for_equipped
    }

    /// Free slots after unequipping the item in `equip_slot`: its slots are
    /// lost, and it takes one slot itself.
    pub open spec fn free_after_unequip_spec(&self, equip_slot: EquipSlot) -> int {
        let eq = self.equipment()[layout_index(equip_slot)].slot;
        let used: int = if eq is Some { 1 } else { 0 };
        self.all().len() - Self::slots_of(eq) - count_some(self.all()) - used
    }

    /// Determines how many free inventory slots will be left after unequipping
    /// an item
    pub fn free_after_unequip(&self, equip_slot: EquipSlot) -> (n: i32)
        requires
            self.wf(),
        ensures
            n == self.free_after_unequip_spec(equip_slot),
    {
        proof {
            self.lemma_counts_small();
            loadout::lemma_layout_index(equip_slot);
        }
        let (inv_slot_for_unequipped, slots_from_equipped): (i32, usize) = match self.equipped(equip_slot) {
            Some(item) => (1, item.slots.len()),
            None => (0, 0),
        };
        let capacity = self.capacity();
        let populated = self.populated_slots();
        proof {
            let k = layout_index(equip_slot);
            assert(slots_from_equipped == Self::slots_of(self.equipment()[k].slot));
            assert(Self::slots_of(self.equipment()[k].slot) <= MAX_SECTION_LEN);
        }
        capacity as i32 - slots_from_equipped as i32 - populated as i32 - inv_slot_for_unequipped
    }

    /// Free slots after swapping the item in `equip_slot` with the one at
    /// `inv_slot`: the slots of the equipped item are lost and those of the
    /// inventory item gained; the unequipped item takes a slot, the equipped
    /// one frees its own.
    pub open spec fn free_after_swap_spec(&self, equip_slot: EquipSlot, inv_slot: InvSlotId) -> int {
        let eq = self.equipment()[layout_index(equip_slot)].slot;
        let inv = self.item_at(inv_slot);
        let used: int = if eq is Some { 1 } else { 0 };
        let freed: int = if inv is Some { 1 } else { 0 };
        self.all().len() - Self::slots_of(eq) + Self::slots_of(inv) - count_some(self.all()) - used + freed
    }

    /// Determines how many free inventory slots will be left after swapping two
    /// item slots
    pub fn free_after_swap(&self, equip_slot: EquipSlot, inv_slot: InvSlotId) -> (n: i32)
        requires
            self.wf(),
        ensures
            n == self.free_after_swap_spec(equip_slot, inv_slot),
    {
        proof {
            self.lemma_counts_small();
            loadout::lemma_layout_index(equip_slot);
        }
        let (inv_slot_for_equipped, slots_from_equipped): (i32, usize) = match self.equipped(equip_slot) {
            Some(item) => (1, item.slots.len()),
            None => (0, 0),
        };
        let (inv_slot_for_inv_item, slots_from_inv_item): (i32, usize) = match self.get(inv_slot) {
            Some(item) => (1, item.slots.len()),
            None => (0, 0),
        };
        let capacity = self.capacity();
        let populated = self.populated_slots();
        proof {
            let k = layout_index(equip_slot);
            assert(slots_from_equipped == Self::slots_of(self.equipment()[k].slot));
            assert(Self::slots_of(self.equipment()[k].slot) <= MAX_SECTION_LEN);
            assert(slots_from_inv_item == Self::slots_of(self.item_at(inv_slot)));
            assert(Self::slots_of(self.item_at(inv_slot)) <= MAX_SECTION_LEN);
        }
        capacity as i32 - slots_from_equipped as i32 + slots_from_inv_item as i32 - populated as i32
            - inv_slot_for_equipped + inv_slot_for_inv_item
    }

    /// Determine whether the inventory contains the ingredients for a recipe.
    /// If it does, return the slots to take items from, each with the number
    /// of items to take, in slot order. If items are missing, return the
    /// missing ingredients, and how many are missing.
    pub fn contains_ingredients<'a>(&self, recipe: &'a Recipe) -> (r: Result<Vec<(InvSlotId, u32)>, Vec<(&'a RecipeInput, u32)>>)
        requires
            self.wf(),
        ensures
            ({
                let out = ingredient_claims(self.all(), recipe.inputs@);
                match r {
                    Ok(v) => {
                        &&& out.1.len() == 0
                        &&& v@.len() == claimed(out.0).len()
                        &&& forall|i: int|
                            0 <= i < v@.len() ==> self.valid_id((#[trigger] v@[i]).0) && self.pos(v@[i].0) == claimed(out.0)[i].0
                                && v@[i].1 == claimed(out.0)[i].1
                        &&& forall|i: int, j: int|
                            0 <= i < j < v@.len() ==> self.pos((#[trigger] v@[i]).0) < self.pos((#[trigger] v@[j]).0)
                    },
                    Err(m) => {
                        &&& out.1.len() > 0
                        &&& m@.len() == out.1.len()
                        &&& forall|i: int| 0 <= i < m@.len() ==> *(#[trigger] m@[i]).0 == out.1[i].0 && m@[i].1 == out.1[i].1
                    },
                }
            }),
    {
        let slots = self.slots_with_id();
        let ghost s = self.all();
        let n = slots.len();
        let mut claims: Vec<Option<u32>> = Vec::new();
        let mut k: usize = 0;
        while k < n
            invariant
                k <= n,
                claims@ == Seq::new(k as nat, |i: int| None::<u32>),
            decreases n - k,
        {
            claims.push(None);
            k += 1;
        }
        proof {
            assert(claims@ == ingredient_claims(s, recipe.inputs@.take(0)).0);
        }
        let mut missing: Vec<(&'a RecipeInput, u32)> = Vec::new();
        let inputs = recipe.inputs();
        let mut i: usize = 0;
        while i < inputs.len()
            invariant
                self.wf(),
                s == self.all(),
                n == s.len(),
                slots@.len() == n,
                forall|q: int|
                    0 <= q < n ==> self.valid_id((#[trigger] slots@[q]).0) && self.pos(slots@[q].0) == q && *slots@[q].1 == s[q],
                inputs@ == recipe.inputs@,
                i <= inputs@.len(),
                claims_ok(s, claims@),
                claims@ == ingredient_claims(s, inputs@.take(i as int)).0,
                missing@.len() == ingredient_claims(s, inputs@.take(i as int)).1.len(),
                forall|m: int|
                    0 <= m < missing@.len() ==> *(#[trigger] missing@[m]).0 == ingredient_claims(s, inputs@.take(i as int)).1[m].0
                        && missing@[m].1 == ingredient_claims(s, inputs@.take(i as int)).1[m].1,
            decreases inputs@.len() - i,
        {
            let input: &'a RecipeInput = &inputs[i].0;
            let needed0 = inputs[i].1;
            let ghost c0 = claims@;
            let mut needed = needed0;
            let mut contains_any = false;
            let mut p: usize = 0;
            while p < n
                invariant
                    s == self.all(),
                    n == s.len(),
                    slots@.len() == n,
                    forall|q: int| 0 <= q < n ==> *(#[trigger] slots@[q]).1 == s[q],
                    p <= n,
                    claims_ok(s, claims@),
                    (claims@, needed, contains_any) == claim_scan(s, *input, needed0, c0, p as int),
                decreases n - p,
            {
                let slot: &InvSlot = slots[p].1;
                match slot {
                    Some(item) => {
                        if item.matches_recipe_input(input) {
                            let claim: u32 = match claims[p] {
                                Some(x) => x,
                                None => 0,
                            };
                            let avail = item.amount - claim;
                            let can_claim = if avail < needed {
                                avail
                            } else {
                                needed
                            };
                            claims.set(p, Some(claim + can_claim));
                            needed = needed - can_claim;
                            contains_any = true;
                        }
                    },
                    None => {},
                }
                p += 1;
            }
            proof {
                assert(inputs@.take(i + 1).drop_last() =~= inputs@.take(i as int));
                assert(inputs@.take(i + 1).last() == inputs@[i as int]);
            }
            if needed > 0 || !contains_any {
                missing.push((input, needed));
            }
            i += 1;
        }
        proof {
            assert(inputs@.take(inputs@.len() as int) =~= inputs@);
        }
        if missing.len() == 0 {
            let mut out: Vec<(InvSlotId, u32)> = Vec::new();
            let mut p: usize = 0;
            while p < n
                invariant
                    n == s.len(),
                    slots@.len() == n,
                    claims@.len() == n,
                    forall|q: int|
                        0 <= q < n ==> self.valid_id((#[trigger] slots@[q]).0) && self.pos(slots@[q].0) == q,
                    p <= n,
                    out@.len() == claimed(claims@.take(p as int)).len(),
                    forall|j: int|
                        0 <= j < out@.len() ==> self.valid_id((#[trigger] out@[j]).0) && self.pos(out@[j].0) == claimed(
                            claims@.take(p as int),
                        )[j].0 && out@[j].1 == claimed(claims@.take(p as int))[j].1,
                decreases n - p,
            {
                proof {
                    assert(claims@.take(p + 1).drop_last() =~= claims@.take(p as int));
                    assert(claims@.take(p + 1).last() == claims@[p as int]);
                }
                match claims[p] {
                    Some(c) => {
                        out.push((slots[p].0, c));
                    },
                    None => {},
                }
                p += 1;
            }
            proof {
                assert(claims@.take(n as int) =~= claims@);
                lemma_claimed_increasing(claims@);
            }
            Ok(out)
        } else {
            Err(missing)
        }
    }

    /// The sections once loadout entry `layout_index(equip_slot)` is emptied.
    pub open spec fn unequipped_sections(&self, equip_slot: EquipSlot) -> Seq<Seq<Option<Item>>> {
        self.sections().update(layout_index(equip_slot) + 1, Seq::empty())
    }

    /// Some slot outside those provided by the item in `equip_slot` is empty.
    pub open spec fn unequip_room(&self, equip_slot: EquipSlot) -> bool {
        count_none(self.all()) - count_none(self.sections()[layout_index(equip_slot) + 1]) != 0
    }

    /// Once taken off, the equipped item finds a place in the remaining slots.
    pub open spec fn unequip_fits(&self, equip_slot: EquipSlot) -> bool {
        let b = self.equipment()[layout_index(equip_slot)].slot;
        self.unequip_room(equip_slot) && b is Some ==> push_spec(
            flat(self.unequipped_sections(equip_slot)),
            b.unwrap(),
            b.unwrap(),
        ).1 is None
    }

    /// Unequip an item from slot and place into inventory. Will leave the item
    /// equipped if inventory has no slots available.
    pub fn unequip(&mut self, equip_slot: EquipSlot) -> (r: Result<Option<Vec<Item>>, SlotError>)
        requires
            old(self).wf(),
            old(self).unequip_fits(equip_slot),
        ensures
            final(self).wf(),
            !old(self).unequip_room(equip_slot) ==> r == Err::<Option<Vec<Item>>, SlotError>(SlotError::InventoryFull)
                && final(self).base() == old(self).base() && final(self).equipment() == old(self).equipment(),
            old(self).unequip_room(equip_slot) ==> {
                let k = layout_index(equip_slot);
                let b = old(self).equipment()[k].slot;
                &&& r is Ok
                &&& frame_after(old(self), final(self), k, None)
                &&& b is None ==> r == Ok::<Option<Vec<Item>>, SlotError>(None) && final(self).all() == old(self).all()
                &&& b is Some ==> exists|drained: Item|
                    #[trigger] emptied(b.unwrap(), drained) && {
                        let s3 = push_spec(flat(old(self).unequipped_sections(equip_slot)), drained, drained).0;
                        let out = push_all_spec(s3, somes(old(self).sections()[k + 1]));
                        &&& final(self).all() == out.0
                        &&& match r {
                            Ok(Some(left)) => left@ == out.1 && out.1.len() > 0,
                            Ok(None) => out.1.len() == 0,
                            Err(_) => false,
                        }
                    }
            },
    {
        if self.free_slots_minus_equipped_item(equip_slot) == 0 {
            return Err(SlotError::InventoryFull);
        }
        let ghost pre = *self;
        let ghost k = layout_index(equip_slot);
        proof {
            loadout::lemma_layout_index(equip_slot);
            pre.lemma_sections();
            pre.lemma_wf_sections();
        }
        let unequipped = self.loadout.swap(equip_slot, None);
        let ghost s1 = *self;
        proof {
            assert(s1.equipment() == pre.equipment().update(k, LoadoutSlot { equip_slot: layout(k), slot: None }));
            Self::lemma_wf_after_entry_change(&pre, self, k, None);
            assert(self.sections() == pre.unequipped_sections(equip_slot));
        }
        match unequipped {
            Some(mut it) => {
                let ghost it_old = it;
                let unloaded = it.drain();
                proof {
                    lemma_somes_members(it_old.slots@);
                    assert forall|i: int| 0 <= i < unloaded@.len() implies (#[trigger] unloaded@[i]).slots@.len() <= MAX_SECTION_LEN by {
                        let j = choose|j: int| 0 <= j < it_old.slots@.len() && it_old.slots@[j] == Some(unloaded@[i]);
                        assert(pre.sections()[k + 1][j] == Some(unloaded@[i]));
                    }
                    assert(opt_slots(pre.equipment()[k].slot).len() <= MAX_SECTION_LEN);
                    assert(emptied(pre.equipment()[k].slot.unwrap(), it));
                }
                let _ = self.push(it);
                let ghost s2 = *self;
                let res = match self.push_all(unloaded) {
                    Err(Error::Full(leftovers)) => Some(leftovers),
                    Ok(()) => None,
                };
                proof {
                    Self::lemma_frame_trans(&s1, &s2, self);
                    Self::lemma_frame_after_chain(&pre, &pre, &s1, self, k, None);
                }
                Ok(res)
            },
            None => {
                proof {
                    assert(self.sections() =~= pre.sections());
                    Self::lemma_frame_after_chain(&pre, &pre, &s1, self, k, None);
                }
                Ok(None)
            },
        }
    }

    /// Both addresses hold items of one stackable definition.
    pub open spec fn mergeable(&self, src: InvSlotId, dst: InvSlotId) -> bool {
        &&& self.valid_id(src)
        &&& self.valid_id(dst)
        &&& self.at(src) is Some
        &&& self.at(dst) is Some
        &&& same_def(self.at(src).unwrap(), self.at(dst).unwrap())
        &&& kind_is_stackable(self.at(src).unwrap().item_def.kind)
    }

    /// The slot at a valid address is position `pos` of `all()`.
    proof fn lemma_at(&self, id: InvSlotId)
        requires
            self.valid_id(id),
        ensures
            0 <= self.pos(id) < self.all().len(),
            self.all()[self.pos(id)] == self.at(id),
            self.wf() && self.at(id) is Some ==> self.at(id).unwrap().slots@.len() <= MAX_SECTION_LEN,
    {
        seqs::lemma_flat_index(
            self.sections(),
            id.spec_loadout_idx() as int,
            id.spec_slot_idx() as int,
        );
    }
}

} // verus!
