//! Which price list an item belongs to, by its asset path or by the good it
//! counts as.
use vstd::prelude::*;

verus! {

/// The price lists items are sorted into.
#[derive(Clone, Copy, Debug, PartialEq, Eq, Structural)]
pub enum PriceList {
    Tools,
    Armor,
    Potions,
    Food,
    Ingredients,
    Other,
}

/// The goods that sites trade in.
#[derive(Clone, Copy, Debug, PartialEq, Eq, Structural)]
pub enum Good {
    Territory,
    Flour,
    Meat,
    Terrain,
    Transportation,
    Food,
    Wood,
    Stone,
    Tools,
    Armor,
    Ingredients,
    Potions,
    Coin,
    RoadSecurity,
}

/// `s` starts with `p`.
pub open spec fn has_prefix(s: Seq<char>, p: Seq<char>) -> bool {
    p.len() <= s.len() && s.subrange(0, p.len() as int) == p
}

/// The price list of an item, by the asset path of its definition.
pub open spec fn list_by_path_spec(name: Seq<char>) -> PriceList {
    if has_prefix(name, "common.items.crafting_ing."@) {
        PriceList::Ingredients
    } else if has_prefix(name, "common.items.armor."@) {
        PriceList::Armor
    } else if has_prefix(name, "common.items.glider."@) {
        PriceList::Other
    } else if has_prefix(name, "common.items.weapons."@) {
        PriceList::Tools
    } else if has_prefix(name, "common.items.consumable."@) {
        PriceList::Potions
    } else if has_prefix(name, "common.items.food."@) {
        PriceList::Food
    } else if has_prefix(name, "common.items.utility."@) {
        PriceList::Other
    } else if has_prefix(name, "common.items.boss_drops."@) {
        PriceList::Other
    } else if has_prefix(name, "common.items.ore."@) {
        PriceList::Ingredients
    } else if has_prefix(name, "common.items.flowers."@) {
        PriceList::Ingredients
    } else if has_prefix(name, "common.items.crafting_tools."@) {
        PriceList::Other
    } else {
        PriceList::Other
    }
}

/// The goods that have a price list of their own.
pub open spec fn good_has_list(good: Good) -> bool {
    matches!(good, Good::Armor | Good::Tools | Good::Potions | Good::Food | Good::Ingredients)
}

/// The characters of a string, in order.
fn chars_of(s: &str) -> (v: Vec<char>)
    ensures
        v@ == s@,
{
    broadcast use vstd::string::axiom_spec_iter;

    let mut v: Vec<char> = Vec::new();
    for c in it: s.chars()
        invariant
            v@ == it.seq().take(it.index() as int),
    {
        v.push(c);
    }
    v
}

/// Whether the characters `s` start with the string `prefix`.
fn starts_with(s: &Vec<char>, prefix: &str) -> (b: bool)
    ensures
        b == has_prefix(s@, prefix@),
{
    let p = chars_of(prefix);
    if p.len() > s.len() {
        return false;
    }
    let mut i: usize = 0;
    while i < p.len()
        invariant
            p@ == prefix@,
            p@.len() <= s@.len(),
            i <= p@.len(),
            forall|q: int| 0 <= q < i ==> s@[q] == p@[q],
        decreases p@.len() - i,
    {
        if s[i] != p[i] {
            proof {
                assert(s@.subrange(0, p@.len() as int)[i as int] != p@[i as int]);
            }
            return false;
        }
        i += 1;
    }
    proof {
        assert(s@.subrange(0, p@.len() as int) =~= p@);
    }
    true
}

/// The price list of an item, by the asset path of its definition; an
/// unknown path falls into `Other`.
pub fn price_list_by_path(name: &str) -> (r: PriceList)
    ensures
        r == list_by_path_spec(name@),
{
    let s = chars_of(name);
    if starts_with(&s, "common.items.crafting_ing.") {
        PriceList::Ingredients
    } else if starts_with(&s, "common.items.armor.") {
        PriceList::Armor
    } else if starts_with(&s, "common.items.glider.") {
        PriceList::Other
    } else if starts_with(&s, "common.items.weapons.") {
        PriceList::Tools
    } else if starts_with(&s, "common.items.consumable.") {
        PriceList::Potions
    } else if starts_with(&s, "common.items.food.") {
        PriceList::Food
    } else if starts_with(&s, "common.items.utility.") {
        PriceList::Other
    } else if starts_with(&s, "common.items.boss_drops.") {
        PriceList::Other
    } else if starts_with(&s, "common.items.ore.") {
        PriceList::Ingredients
    } else if starts_with(&s, "common.items.flowers.") {
        PriceList::Ingredients
    } else if starts_with(&s, "common.items.crafting_tools.") {
        PriceList::Other
    } else {
        PriceList::Other
    }
}

/// The price list of a good that has one.
pub fn price_list_for_good(good: Good) -> (r: PriceList)
    requires
        good_has_list(good),
    ensures
        r == match good {
            Good::Armor => PriceList::Armor,
            Good::Tools => PriceList::Tools,
            Good::Potions => PriceList::Potions,
            Good::Food => PriceList::Food,
            _ => PriceList::Ingredients,
        },
{
    match good {
        Good::Armor => PriceList::Armor,
        Good::Tools => PriceList::Tools,
        Good::Potions => PriceList::Potions,
        Good::Food => PriceList::Food,
        _ => PriceList::Ingredients,
    }
}

/// Two strings that differ at a position both cover are never both
/// prefixes of one string.
proof fn lemma_prefixes_exclusive(s: Seq<char>, p: Seq<char>, q: Seq<char>, i: int)
    requires
        0 <= i < p.len(),
        i < q.len(),
        p[i] != q[i],
    ensures
        !(has_prefix(s, p) && has_prefix(s, q)),
{
    if has_prefix(s, p) && has_prefix(s, q) {
        assert(s.subrange(0, p.len() as int)[i] == s[i]);
        assert(s.subrange(0, q.len() as int)[i] == s[i]);
    }
}

/// Items are priced by the folder of their asset path: crafting
/// ingredients, ores and flowers as ingredients, armour as armour, weapons
/// as tools, consumables as potions, food as food, and gliders, utilities,
/// boss drops and crafting tools, like anything else, as other goods.
pub proof fn items_priced_by_folder(name: Seq<char>)
    ensures
        has_prefix(name, "common.items.crafting_ing."@) ==> list_by_path_spec(name) == PriceList::Ingredients,
        has_prefix(name, "common.items.armor."@) ==> list_by_path_spec(name) == PriceList::Armor,
        has_prefix(name, "common.items.glider."@) ==> list_by_path_spec(name) == PriceList::Other,
        has_prefix(name, "common.items.weapons."@) ==> list_by_path_spec(name) == PriceList::Tools,
        has_prefix(name, "common.items.consumable."@) ==> list_by_path_spec(name) == PriceList::Potions,
        has_prefix(name, "common.items.food."@) ==> list_by_path_spec(name) == PriceList::Food,
        has_prefix(name, "common.items.utility."@) ==> list_by_path_spec(name) == PriceList::Other,
        has_prefix(name, "common.items.boss_drops."@) ==> list_by_path_spec(name) == PriceList::Other,
        has_prefix(name, "common.items.ore."@) ==> list_by_path_spec(name) == PriceList::Ingredients,
        has_prefix(name, "common.items.flowers."@) ==> list_by_path_spec(name) == PriceList::Ingredients,
        has_prefix(name, "common.items.crafting_tools."@) ==> list_by_path_spec(name) == PriceList::Other,
{
    reveal_strlit("common.items.crafting_ing.");
    reveal_strlit("common.items.armor.");
    reveal_strlit("common.items.glider.");
    reveal_strlit("common.items.weapons.");
    reveal_strlit("common.items.consumable.");
    reveal_strlit("common.items.food.");
    reveal_strlit("common.items.utility.");
    reveal_strlit("common.items.boss_drops.");
    reveal_strlit("common.items.ore.");
    reveal_strlit("common.items.flowers.");
    reveal_strlit("common.items.crafting_tools.");
    lemma_prefixes_exclusive(name, "common.items.armor."@, "common.items.crafting_ing."@, 13);
    lemma_prefixes_exclusive(name, "common.items.glider."@, "common.items.crafting_ing."@, 13);
    lemma_prefixes_exclusive(name, "common.items.glider."@, "common.items.armor."@, 13);
    lemma_prefixes_exclusive(name, "common.items.weapons."@, "common.items.crafting_ing."@, 13);
    lemma_prefixes_exclusive(name, "common.items.weapons."@, "common.items.armor."@, 13);
    lemma_prefixes_exclusive(name, "common.items.weapons."@, "common.items.glider."@, 13);
    lemma_prefixes_exclusive(name, "common.items.consumable."@, "common.items.crafting_ing."@, 14);
    lemma_prefixes_exclusive(name, "common.items.consumable."@, "common.items.armor."@, 13);
    lemma_prefixes_exclusive(name, "common.items.consumable."@, "common.items.glider."@, 13);
    lemma_prefixes_exclusive(name, "common.items.consumable."@, "common.items.weapons."@, 13);
    lemma_prefixes_exclusive(name, "common.items.food."@, "common.items.crafting_ing."@, 13);
    lemma_prefixes_exclusive(name, "common.items.food."@, "common.items.armor."@, 13);
    lemma_prefixes_exclusive(name, "common.items.food."@, "common.items.glider."@, 13);
    lemma_prefixes_exclusive(name, "common.items.food."@, "common.items.weapons."@, 13);
    lemma_prefixes_exclusive(name, "common.items.food."@, "common.items.consumable."@, 13);
    lemma_prefixes_exclusive(name, "common.items.utility."@, "common.items.crafting_ing."@, 13);
    lemma_prefixes_exclusive(name, "common.items.utility."@, "common.items.armor."@, 13);
    lemma_prefixes_exclusive(name, "common.items.utility."@, "common.items.glider."@, 13);
    lemma_prefixes_exclusive(name, "common.items.utility."@, "common.items.weapons."@, 13);
    lemma_prefixes_exclusive(name, "common.items.utility."@, "common.items.consumable."@, 13);
    lemma_prefixes_exclusive(name, "common.items.utility."@, "common.items.food."@, 13);
    lemma_prefixes_exclusive(name, "common.items.boss_drops."@, "common.items.crafting_ing."@, 13);
    lemma_prefixes_exclusive(name, "common.items.boss_drops."@, "common.items.armor."@, 13);
    lemma_prefixes_exclusive(name, "common.items.boss_drops."@, "common.items.glider."@, 13);
    lemma_prefixes_exclusive(name, "common.items.boss_drops."@, "common.items.weapons."@, 13);
    lemma_prefixes_exclusive(name, "common.items.boss_drops."@, "common.items.consumable."@, 13);
    lemma_prefixes_exclusive(name, "common.items.boss_drops."@, "common.items.food."@, 13);
    lemma_prefixes_exclusive(name, "common.items.boss_drops."@, "common.items.utility."@, 13);
    lemma_prefixes_exclusive(name, "common.items.ore."@, "common.items.crafting_ing."@, 13);
    lemma_prefixes_exclusive(name, "common.items.ore."@, "common.items.armor."@, 13);
    lemma_prefixes_exclusive(name, "common.items.ore."@, "common.items.glider."@, 13);
    lemma_prefixes_exclusive(name, "common.items.ore."@, "common.items.weapons."@, 13);
    lemma_prefixes_exclusive(name, "common.items.ore."@, "common.items.consumable."@, 13);
    lemma_prefixes_exclusive(name, "common.items.ore."@, "common.items.food."@, 13);
    lemma_prefixes_exclusive(name, "common.items.ore."@, "common.items.utility."@, 13);
    lemma_prefixes_exclusive(name, "common.items.ore."@, "common.items.boss_drops."@, 13);
    lemma_prefixes_exclusive(name, "common.items.flowers."@, "common.items.crafting_ing."@, 13);
    lemma_prefixes_exclusive(name, "common.items.flowers."@, "common.items.armor."@, 13);
    lemma_prefixes_exclusive(name, "common.items.flowers."@, "common.items.glider."@, 13);
    lemma_prefixes_exclusive(name, "common.items.flowers."@, "common.items.weapons."@, 13);
    lemma_prefixes_exclusive(name, "common.items.flowers."@, "common.items.consumable."@, 13);
    lemma_prefixes_exclusive(name, "common.items.flowers."@, "common.items.food."@, 14);
    lemma_prefixes_exclusive(name, "common.items.flowers."@, "common.items.utility."@, 13);
    lemma_prefixes_exclusive(name, "common.items.flowers."@, "common.items.boss_drops."@, 13);
    lemma_prefixes_exclusive(name, "common.items.flowers."@, "common.items.ore."@, 13);
    lemma_prefixes_exclusive(name, "common.items.crafting_tools."@, "common.items.crafting_ing."@, 22);
    lemma_prefixes_exclusive(name, "common.items.crafting_tools."@, "common.items.armor."@, 13);
    lemma_prefixes_exclusive(name, "common.items.crafting_tools."@, "common.items.glider."@, 13);
    lemma_prefixes_exclusive(name, "common.items.crafting_tools."@, "common.items.weapons."@, 13);
    lemma_prefixes_exclusive(name, "common.items.crafting_tools."@, "common.items.consumable."@, 14);
    lemma_prefixes_exclusive(name, "common.items.crafting_tools."@, "common.items.food."@, 13);
    lemma_prefixes_exclusive(name, "common.items.crafting_tools."@, "common.items.utility."@, 13);
    lemma_prefixes_exclusive(name, "common.items.crafting_tools."@, "common.items.boss_drops."@, 13);
    lemma_prefixes_exclusive(name, "common.items.crafting_tools."@, "common.items.ore."@, 13);
    lemma_prefixes_exclusive(name, "common.items.crafting_tools."@, "common.items.flowers."@, 13);
}

} // verus!
