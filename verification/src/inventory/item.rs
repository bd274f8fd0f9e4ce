use vstd::prelude::*;

verus! {

/// The kind of armour piece an item is.
#[derive(Clone, Copy, Debug, PartialEq, Eq, Structural)]
pub enum ArmorKind {
    Shoulder,
    Chest,
    Belt,
    Hand,
    Pants,
    Foot,
    Back,
    Ring,
    Neck,
    Head,
    Tabard,
    Bag,
}

/// The kind of tool (weapon) an item is.
#[derive(Clone, Copy, Debug, PartialEq, Eq, Structural)]
pub enum ToolKind {
    Sword,
    Axe,
    Hammer,
    Bow,
    Dagger,
    Staff,
    Sceptre,
    Shield,
    Spear,
    Debug,
    Farming,
    Pick,
    Empty,
}

/// What an item is, as far as equipping and stacking are concerned.
#[derive(Clone, Copy, Debug, PartialEq, Eq, Structural)]
pub enum ItemKind {
    Tool(ToolKind),
    Lantern,
    Armor(ArmorKind),
    Glider,
    Consumable,
    Throwable,
    Utility,
    Ingredient,
}

/// Tags that recipes can ask for instead of a specific item.
#[derive(Clone, Copy, Debug, PartialEq, Eq, Structural)]
pub enum ItemTag {
    ClothItem,
    LeatherItem,
    MetalIngot,
    Textile,
    Leather,
    Cultist,
}

/// The definition shared by all items of one kind.
#[derive(Clone, Debug)]
pub struct ItemDef {
    pub item_definition_id: String,
    pub kind: ItemKind,
    /// Number of inventory slots an item of this definition provides when equipped.
    pub slots: u16,
    pub tags: Vec<ItemTag>,
}

/// A stack of items, possibly holding items in its own slots.
#[derive(Debug)]
pub struct Item {
    pub item_def: ItemDef,
    pub amount: u32,
    pub slots: Vec<Option<Item>>,
}

/// Per-material statistics used when building modular items; the items
/// modelled here carry no modular components, so it holds nothing.
#[derive(Clone, Copy, Debug)]
pub struct MaterialStatManifest;

/// An amount change that an item refused.
#[derive(Clone, Copy, Debug, PartialEq, Eq, Structural)]
pub struct OperationFailure;

pub open spec fn kind_is_stackable(k: ItemKind) -> bool {
    matches!(k, ItemKind::Consumable | ItemKind::Throwable | ItemKind::Utility | ItemKind::Ingredient)
}

/// Two definitions with equal contents.
pub open spec fn def_eq(a: ItemDef, b: ItemDef) -> bool {
    &&& a.item_definition_id@ == b.item_definition_id@
    &&& a.kind == b.kind
    &&& a.slots == b.slots
    &&& a.tags@ == b.tags@
}

/// Two items are the same item when they share a definition.
pub open spec fn same_def(a: Item, b: Item) -> bool {
    a.item_def.item_definition_id@ == b.item_def.item_definition_id@
}

/// The item with its amount replaced.
pub open spec fn with_amount(it: Item, n: u32) -> Item {
    Item { amount: n, ..it }
}

/// The item with every one of its own slots emptied.
pub open spec fn emptied(it: Item, fresh: Item) -> bool {
    &&& fresh.item_def == it.item_def
    &&& fresh.amount == it.amount
    &&& fresh.slots@.len() == it.slots@.len()
    &&& forall|i: int| 0 <= i < fresh.slots@.len() ==> #[trigger] fresh.slots@[i] is None
}

/// The items held in a sequence of slots, in slot order.
pub open spec fn somes(s: Seq<Option<Item>>) -> Seq<Item>
    decreases s.len(),
{
    if s.len() == 0 {
        Seq::empty()
    } else {
        somes(s.drop_last()) + match s.last() {
            Some(it) => seq![it],
            None => Seq::empty(),
        }
    }
}

/// A borrowed optional item that shows the given optional item.
pub open spec fn opt_ref(r: Option<&Item>, o: Option<Item>) -> bool {
    match (r, o) {
        (Some(a), Some(b)) => *a == b,
        (None, None) => true,
        _ => false,
    }
}

pub open spec fn all_none(s: Seq<Option<Item>>) -> bool {
    forall|i: int| 0 <= i < s.len() ==> #[trigger] s[i] is None
}

impl ItemDef {
    /// A copy of this definition.
    pub fn clone_def(&self) -> (r: ItemDef)
        ensures
            def_eq(r, *self),
    {
        let mut tags: Vec<ItemTag> = Vec::new();
        let mut i: usize = 0;
        while i < self.tags.len()
            invariant
                i <= self.tags@.len(),
                tags@ == self.tags@.take(i as int),
            decreases self.tags@.len() - i,
        {
            tags.push(self.tags[i]);
            i += 1;
            assert(tags@ =~= self.tags@.take(i as int));
        }
        assert(tags@ =~= self.tags@);
        ItemDef {
            item_definition_id: self.item_definition_id.clone(),
            kind: self.kind,
            slots: self.slots,
            tags,
        }
    }
}

impl PartialEq for Item {
    fn eq(&self, other: &Self) -> (r: bool) {
        self.item_def.item_definition_id == other.item_def.item_definition_id
    }
}

impl vstd::std_specs::cmp::PartialEqSpecImpl for Item {
    open spec fn obeys_eq_spec() -> bool {
        true
    }

    open spec fn eq_spec(&self, other: &Item) -> bool {
        same_def(*self, *other)
    }
}

impl Item {
    /// A fresh single item of the given definition, with all its slots empty.
    pub fn new_from_item_def(item_def: ItemDef) -> (r: Item)
        ensures
            r.item_def == item_def,
            r.amount == 1,
            r.slots@.len() == item_def.slots,
            all_none(r.slots@),
    {
        let mut slots: Vec<Option<Item>> = Vec::new();
        let mut i: u16 = 0;
        while i < item_def.slots
            invariant
                i <= item_def.slots,
                slots@.len() == i,
                all_none(slots@),
            decreases item_def.slots - i,
        {
            slots.push(None);
            i += 1;
        }
        Item { item_def, amount: 1, slots }
    }

    /// A copy of this item with the same definition and amount; its own slots
    /// start empty.
    pub fn duplicate(&self, _msm: &MaterialStatManifest) -> (r: Item)
        ensures
            def_eq(r.item_def, self.item_def),
            r.amount == self.amount,
            r.slots@.len() == self.item_def.slots,
            all_none(r.slots@),
    {
        let mut r = Item::new_from_item_def(self.item_def.clone_def());
        r.amount = self.amount;
        r
    }

    /// A copy of this item, holding copies of the items it holds.
    pub fn copy(&self) -> (r: Item)
        ensures
            def_eq(r.item_def, self.item_def),
            r.amount == self.amount,
            r.slots@.len() == self.slots@.len(),
        decreases self,
    {
        let mut slots: Vec<Option<Item>> = Vec::new();
        let mut i: usize = 0;
        while i < self.slots.len()
            invariant
                i <= self.slots@.len(),
                slots@.len() == i,
            decreases self.slots@.len() - i,
        {
            let s = match &self.slots[i] {
                Some(it) => {
                    proof {
                        broadcast use vstd::std_specs::vec::axiom_vec_index_decreases;
                        assert(decreases_to!(self.slots => self.slots[i as int]));
                        assert(decreases_to!(self => self.slots));
                        assert(decreases_to!(self => *it));
                    }
                    Some(it.copy())
                },
                None => None,
            };
            slots.push(s);
            i += 1;
        }
        Item { item_def: self.item_def.clone_def(), amount: self.amount, slots }
    }

    pub fn kind(&self) -> (k: ItemKind)
        ensures
            k == self.item_def.kind,
    {
        self.item_def.kind
    }

    pub fn item_definition_id(&self) -> (s: &str)
        ensures
            s@ == self.item_def.item_definition_id@,
    {
        self.item_def.item_definition_id.as_str()
    }

    pub fn is_same_item_def(&self, item_def: &ItemDef) -> (b: bool)
        ensures
            b == (self.item_def.item_definition_id@ == item_def.item_definition_id@),
    {
        self.item_def.item_definition_id == item_def.item_definition_id
    }

    /// The slots this item provides.
    pub fn slots(&self) -> (s: &Vec<Option<Item>>)
        ensures
            s@ == self.slots@,
    {
        &self.slots
    }

    /// Sets the amount; only a stackable item may hold more than one.
    pub fn set_amount(&mut self, give_amount: u32) -> (r: Result<(), OperationFailure>)
        ensures
            r is Ok <==> (give_amount >= 1 && (give_amount == 1 || kind_is_stackable(
                old(self).item_def.kind,
            ))),
            r is Ok ==> *final(self) == with_amount(*old(self), give_amount),
            r is Err ==> *final(self) == *old(self),
    {
        if give_amount >= 1 && (give_amount == 1 || self.is_stackable()) {
            self.amount = give_amount;
            Ok(())
        } else {
            Err(OperationFailure)
        }
    }

    /// Adds to the amount, refusing when the sum does not fit.
    pub fn increase_amount(&mut self, increase_by: u32) -> (r: Result<(), OperationFailure>)
        ensures
            r is Ok <==> old(self).amount + increase_by <= u32::MAX,
            r is Ok ==> *final(self) == with_amount(
                *old(self),
                (old(self).amount + increase_by) as u32,
            ),
            r is Err ==> *final(self) == *old(self),
    {
        match self.amount.checked_add(increase_by) {
            Some(n) => {
                self.amount = n;
                Ok(())
            },
            None => Err(OperationFailure),
        }
    }

    /// Takes from the amount, refusing when nothing would be left.
    pub fn decrease_amount(&mut self, decrease_by: u32) -> (r: Result<(), OperationFailure>)
        ensures
            r is Ok <==> old(self).amount > decrease_by,
            r is Ok ==> *final(self) == with_amount(
                *old(self),
                (old(self).amount - decrease_by) as u32,
            ),
            r is Err ==> *final(self) == *old(self),
    {
        if self.amount > decrease_by {
            self.amount = self.amount - decrease_by;
            Ok(())
        } else {
            Err(OperationFailure)
        }
    }

    /// Number of this item's own slots that hold an item.
    pub fn populated_slots(&self) -> (n: usize)
        ensures
            n == crate::inventory::seqs::count_some(self.slots@),
    {
        let mut n: usize = 0;
        let mut i: usize = 0;
        while i < self.slots.len()
            invariant
                i <= self.slots@.len(),
                n == crate::inventory::seqs::count_some(self.slots@.take(i as int)),
                n <= i,
            decreases self.slots@.len() - i,
        {
            proof {
                crate::inventory::seqs::lemma_count_push(self.slots@.take(i as int), self.slots@[i as int]);
                assert(self.slots@.take(i as int).push(self.slots@[i as int]) =~= self.slots@.take(i + 1));
            }
            if self.slots[i].is_some() {
                n += 1;
            }
            i += 1;
        }
        assert(self.slots@.take(i as int) =~= self.slots@);
        n
    }

    /// Takes every item out of this item's slots, in slot order.
    pub fn drain(&mut self) -> (r: Vec<Item>)
        ensures
            r@ == somes(old(self).slots@),
            final(self).item_def == old(self).item_def,
            final(self).amount == old(self).amount,
            final(self).slots@.len() == old(self).slots@.len(),
            all_none(final(self).slots@),
    {
        let ghost orig = self.slots@;
        let mut out: Vec<Item> = Vec::new();
        let mut i: usize = 0;
        while i < self.slots.len()
            invariant
                i <= self.slots@.len(),
                self.slots@.len() == orig.len(),
                self.item_def == old(self).item_def,
                self.amount == old(self).amount,
                orig == old(self).slots@,
                out@ == somes(orig.take(i as int)),
                forall|q: int| 0 <= q < i ==> #[trigger] self.slots@[q] is None,
                forall|q: int| i <= q < orig.len() ==> #[trigger] self.slots@[q] == orig[q],
            decreases self.slots@.len() - i,
        {
            let mut taken: Option<Item> = None;
            std::mem::swap(&mut taken, &mut self.slots[i]);
            proof {
                assert(orig.take(i + 1).drop_last() =~= orig.take(i as int));
            }
            match taken {
                Some(it) => {
                    out.push(it);
                },
                None => {},
            }
            i += 1;
            proof {
                assert(out@ =~= somes(orig.take(i as int)));
            }
        }
        assert(orig.take(i as int) =~= orig);
        out
    }

    pub fn is_stackable(&self) -> (b: bool)
        ensures b == kind_is_stackable(self.item_def.kind),
    {
        match self.item_def.kind {
            ItemKind::Consumable | ItemKind::Throwable | ItemKind::Utility | ItemKind::Ingredient => true,
            _ => false,
        }
    }

    pub fn amount(&self) -> (a: u32)
        ensures a == self.amount,
    {
        self.amount
    }
}

/// Consumables, throwables, utilities and ingredients stack; tools,
/// lanterns, armour and gliders never do.
pub proof fn what_stacks(k: ItemKind)
    ensures
        (k == ItemKind::Consumable || k == ItemKind::Throwable || k == ItemKind::Utility || k == ItemKind::Ingredient)
            ==> kind_is_stackable(k),
        (k is Tool || k is Armor || k == ItemKind::Lantern || k == ItemKind::Glider) ==> !kind_is_stackable(k),
{
}
} // verus!
