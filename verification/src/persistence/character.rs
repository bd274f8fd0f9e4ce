//! Decisions around storing characters: the character limit, the records
//! every character starts with, and the breadth-first walk that loads the
//! items of a container.
use vstd::prelude::*;

verus! {

/// How many characters a player may have.
pub const MAX_CHARACTERS_PER_PLAYER: usize = 8;

/// The container that holds every character.
pub const WORLD_PSEUDO_CONTAINER_ID: i64 = 1;

/// A stored item: its id, the container it lies in and where.
#[derive(Clone, Debug)]
pub struct ItemRecord {
    pub item_id: i64,
    pub parent_container_item_id: i64,
    pub item_definition_id: String,
    pub stack_size: i32,
    pub position: String,
}

/// Why storing a character failed.
#[derive(Clone, Copy, Debug, PartialEq, Eq, Structural)]
pub enum Error {
    /// The player already has as many characters as allowed.
    CharacterLimitReached,
}

/// Before creating a character, checks that the player has fewer characters
/// than allowed, given how many the store counted (`None` when it returned
/// no count).
pub fn check_character_limit(character_count: Option<i64>) -> (r: Result<(), Error>)
    ensures
        r == match character_count {
            Some(count) => if count < MAX_CHARACTERS_PER_PLAYER as i64 {
                Ok::<(), Error>(())
            } else {
                Err(Error::CharacterLimitReached)
            },
            None => Ok(()),
        },
{
    match character_count {
        Some(count) => {
            if count < MAX_CHARACTERS_PER_PLAYER as i64 {
                Ok(())
            } else {
                Err(Error::CharacterLimitReached)
            }
        },
        None => Ok(()),
    }
}

/// The three pseudo-container records a new character starts with: the
/// character itself, in the world container at a position named by its id;
/// and its inventory and its loadout, both in the character.
pub fn pseudo_containers(character_id: i64, inventory_container_id: i64, loadout_container_id: i64) -> (r: Vec<
    ItemRecord,
>)
    ensures
        r@.len() == 3,
        r@[0].item_id == character_id && r@[0].parent_container_item_id == WORLD_PSEUDO_CONTAINER_ID,
        r@[0].item_definition_id@ == "veloren.core.pseudo_containers.character"@,
        vstd::string::to_string_from_display_ensures::<i64>(&character_id, r@[0].position),
        r@[1].item_id == inventory_container_id && r@[1].parent_container_item_id == character_id,
        r@[1].item_definition_id@ == "veloren.core.pseudo_containers.inventory"@,
        r@[1].position@ == "inventory"@,
        r@[2].item_id == loadout_container_id && r@[2].parent_container_item_id == character_id,
        r@[2].item_definition_id@ == "veloren.core.pseudo_containers.loadout"@,
        r@[2].position@ == "loadout"@,
        forall|i: int| 0 <= i < 3 ==> (#[trigger] r@[i]).stack_size == 1,
{
    let mut v: Vec<ItemRecord> = Vec::new();
    v.push(
        ItemRecord {
            stack_size: 1,
            item_id: character_id,
            parent_container_item_id: WORLD_PSEUDO_CONTAINER_ID,
            item_definition_id: "veloren.core.pseudo_containers.character".to_owned(),
            position: character_id.to_string(),
        },
    );
    v.push(
        ItemRecord {
            stack_size: 1,
            item_id: inventory_container_id,
            parent_container_item_id: character_id,
            item_definition_id: "veloren.core.pseudo_containers.inventory".to_owned(),
            position: "inventory".to_owned(),
        },
    );
    v.push(
        ItemRecord {
            stack_size: 1,
            item_id: loadout_container_id,
            parent_container_item_id: character_id,
            item_definition_id: "veloren.core.pseudo_containers.loadout".to_owned(),
            position: "loadout".to_owned(),
        },
    );
    v
}

/// The ids of a sequence of records.
pub open spec fn ids_of(s: Seq<ItemRecord>) -> Seq<i64> {
    s.map_values(|r: ItemRecord| r.item_id)
}

/// A breadth-first walk over the items below a container: the containers
/// still to ask for their items, and the items found so far, level by level.
pub struct ItemsBfs {
    queue: Vec<i64>,
    head: usize,
    items: Vec<ItemRecord>,
}

impl ItemsBfs {
    /// The containers still to ask, oldest first.
    pub closed spec fn pending(&self) -> Seq<i64> {
        self.queue@.subrange(self.head as int, self.queue@.len() as int)
    }

    /// The items found so far, in the order they were found.
    pub closed spec fn found(&self) -> Seq<ItemRecord> {
        self.items@
    }

    pub closed spec fn wf(&self) -> bool {
        self.head <= self.queue@.len()
    }

    /// A walk that starts at the container `root`.
    pub fn new(root: i64) -> (r: Self)
        ensures
            r.wf(),
            r.pending() == seq![root],
            r.found() == Seq::<ItemRecord>::empty(),
    {
        let mut queue = Vec::new();
        queue.push(root);
        let r = ItemsBfs { queue, head: 0, items: Vec::new() };
        assert(r.pending() =~= seq![root]);
        r
    }

    /// The next container to ask for the items it holds, taken off the
    /// queue; `None` once the walk is complete.
    pub fn next_container(&mut self) -> (r: Option<i64>)
        requires
            old(self).wf(),
        ensures
            final(self).wf(),
            final(self).found() == old(self).found(),
            old(self).pending().len() == 0 ==> r is None && final(self).pending() == old(self).pending(),
            old(self).pending().len() > 0 ==> r == Some(old(self).pending()[0]) && final(self).pending()
                == old(self).pending().drop_first(),
    {
        if self.head < self.queue.len() {
            let id = self.queue[self.head];
            self.head += 1;
            assert(self.pending() =~= old(self).pending().drop_first());
            Some(id)
        } else {
            None
        }
    }

    /// Records the items held by the container last asked: they are found,
    /// and each is queued as a container to ask in turn.
    pub fn add_frontier(&mut self, frontier: Vec<ItemRecord>)
        requires
            old(self).wf(),
        ensures
            final(self).wf(),
            final(self).found() == old(self).found() + frontier@,
            final(self).pending() == old(self).pending() + ids_of(frontier@),
    {
        let ghost pending0 = self.pending();
        let ghost front = frontier@;
        let mut i: usize = 0;
        while i < frontier.len()
            invariant
                self.wf(),
                i <= frontier@.len(),
                front == frontier@,
                self.found() == old(self).found(),
                self.pending() == pending0 + ids_of(front.take(i as int)),
            decreases frontier@.len() - i,
        {
            let id = frontier[i].item_id;
            let ghost before = self.pending();
            self.queue.push(id);
            proof {
                assert(self.pending() =~= before.push(id));
                assert(ids_of(front.take(i + 1)) =~= ids_of(front.take(i as int)).push(id));
                assert(self.pending() =~= pending0 + ids_of(front.take(i + 1)));
            }
            i += 1;
        }
        proof {
            assert(front.take(front.len() as int) =~= front);
        }
        let mut frontier = frontier;
        self.items.append(&mut frontier);
    }

    /// The items found, once the walk is complete.
    pub fn finish(self) -> (r: Vec<ItemRecord>)
        ensures
            r@ == self.found(),
    {
        self.items
    }
}

} // verus!
