//! Crafting recipes as far as the inventory needs them: what a recipe takes.
use vstd::prelude::*;

use super::item::{Item, ItemDef, ItemTag};

verus! {

/// One kind of ingredient: a specific item, or any item carrying a tag.
#[derive(Clone, Debug)]
pub enum RecipeInput {
    Item(ItemDef),
    Tag(ItemTag),
}

/// A recipe: what it makes, and the ingredients with the amount of each.
#[derive(Debug)]
pub struct Recipe {
    pub output: (ItemDef, u32),
    pub inputs: Vec<(RecipeInput, u32)>,
}

/// Whether an item can serve as the ingredient `input`.
pub open spec fn matches_input(it: Item, input: RecipeInput) -> bool {
    match input {
        RecipeInput::Item(def) => it.item_def.item_definition_id@ == def.item_definition_id@,
        RecipeInput::Tag(tag) => it.item_def.tags@.contains(tag),
    }
}

impl Item {
    /// Whether this item can serve as the ingredient `recipe_input`.
    pub fn matches_recipe_input(&self, recipe_input: &RecipeInput) -> (b: bool)
        ensures
            b == matches_input(*self, *recipe_input),
    {
        match recipe_input {
            RecipeInput::Item(item_def) => self.is_same_item_def(item_def),
            RecipeInput::Tag(tag) => {
                let mut i: usize = 0;
                while i < self.item_def.tags.len()
                    invariant
                        *recipe_input == RecipeInput::Tag(*tag),
                        i <= self.item_def.tags@.len(),
                        forall|q: int| 0 <= q < i ==> self.item_def.tags@[q] != *tag,
                    decreases self.item_def.tags@.len() - i,
                {
                    if self.item_def.tags[i] == *tag {
                        assert(self.item_def.tags@[i as int] == *tag);
                        return true;
                    }
                    i += 1;
                }
                assert(!self.item_def.tags@.contains(*tag));
                false
            },
        }
    }
}

impl Recipe {
    /// The ingredients with the amount of each.
    pub fn inputs(&self) -> (r: &Vec<(RecipeInput, u32)>)
        ensures
            r@ == self.inputs@,
    {
        &self.inputs
    }
}

} // verus!
