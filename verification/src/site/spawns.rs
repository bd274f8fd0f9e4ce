//! Who a dungeon room spawns: the enemies scattered over its tiles, and the
//! boss or miniboss that stands at its centre, by the room's difficulty.
use vstd::prelude::*;

use crate::site::dungeon::{
    is_pillar, tile_is_pillar, tile_of, tile_of_exec, trunc_half, Floor, Rect, Tile, Vec2i, COORD_LIMIT, TILE_SIZE,
};

verus! {

/// A creature a dungeon room can spawn.
#[derive(Clone, Copy, Debug, PartialEq, Eq, Structural)]
pub enum Spawn {
    Gnarling,
    Adlet,
    Sahagin,
    Haniwa,
    Myrmidon,
    CultistWarlock,
    PossessedTurret,
    CultistWarlord,
    Humanoid,
    Harvester,
    Yeti,
    TidalWarrior,
    ClayGolem,
    Minotaur,
    Mindflayer,
    Sheep,
    Bonerattler,
    Hakulaq,
    AnimalTrainer,
    TamedDarkhound,
    DullahanGuard,
    StoneworkDefender,
}

/// The name a spawned creature is given (a sheep gets none).
pub open spec fn spawn_name_spec(s: Spawn) -> Option<Seq<char>> {
    match s {
        Spawn::Gnarling => Some("Gnarling"@),
        Spawn::Adlet => Some("Adlet"@),
        Spawn::Sahagin => Some("Sahagin"@),
        Spawn::Haniwa => Some("Haniwa"@),
        Spawn::Myrmidon => Some("Myrmidon"@),
        Spawn::CultistWarlock => Some("Cultist Warlock"@),
        Spawn::PossessedTurret => Some("Possessed Turret"@),
        Spawn::CultistWarlord => Some("Cultist Warlord"@),
        Spawn::Humanoid => Some("Humanoid"@),
        Spawn::Harvester => Some("Harvester"@),
        Spawn::Yeti => Some("Yeti"@),
        Spawn::TidalWarrior => Some("Tidal Warrior"@),
        Spawn::ClayGolem => Some("Clay Golem"@),
        Spawn::Minotaur => Some("Minotaur"@),
        Spawn::Mindflayer => Some("Mindflayer"@),
        Spawn::Sheep => None,
        Spawn::Bonerattler => Some("Bonerattler"@),
        Spawn::Hakulaq => Some("Hakulaq"@),
        Spawn::AnimalTrainer => Some("Animal Trainer"@),
        Spawn::TamedDarkhound => Some("Tamed Darkhound"@),
        Spawn::DullahanGuard => Some("Dullahan Guard"@),
        Spawn::StoneworkDefender => Some("Stonework Defender"@),
    }
}

impl Spawn {
    /// The name the creature is given, if any.
    pub fn name(self) -> (r: Option<&'static str>)
        ensures
            match r {
                Some(n) => spawn_name_spec(self) == Some(n@),
                None => spawn_name_spec(self) is None,
            },
    {
        match self {
            Spawn::Gnarling => Some("Gnarling"),
            Spawn::Adlet => Some("Adlet"),
            Spawn::Sahagin => Some("Sahagin"),
            Spawn::Haniwa => Some("Haniwa"),
            Spawn::Myrmidon => Some("Myrmidon"),
            Spawn::CultistWarlock => Some("Cultist Warlock"),
            Spawn::PossessedTurret => Some("Possessed Turret"),
            Spawn::CultistWarlord => Some("Cultist Warlord"),
            Spawn::Humanoid => Some("Humanoid"),
            Spawn::Harvester => Some("Harvester"),
            Spawn::Yeti => Some("Yeti"),
            Spawn::TidalWarrior => Some("Tidal Warrior"),
            Spawn::ClayGolem => Some("Clay Golem"),
            Spawn::Minotaur => Some("Minotaur"),
            Spawn::Mindflayer => Some("Mindflayer"),
            Spawn::Sheep => None,
            Spawn::Bonerattler => Some("Bonerattler"),
            Spawn::Hakulaq => Some("Hakulaq"),
            Spawn::AnimalTrainer => Some("Animal Trainer"),
            Spawn::TamedDarkhound => Some("Tamed Darkhound"),
            Spawn::DullahanGuard => Some("Dullahan Guard"),
            Spawn::StoneworkDefender => Some("Stonework Defender"),
        }
    }
}

/// How many outcomes the roll that picks among the enemies of a difficulty
/// has; `None` where a difficulty has one kind of enemy.
pub fn enemy_kind_roll_range(difficulty: u32) -> (r: Option<u32>)
    ensures
        r == if difficulty == 5 { Some(6u32) } else { None },
{
    if difficulty == 5 {
        Some(6)
    } else {
        None
    }
}

/// The enemy a room of a difficulty spawns on a tile, from a roll below
/// `enemy_kind_roll_range(difficulty)` (any roll where there is no range).
pub open spec fn enemy_spawn_spec(difficulty: u32, roll: u32) -> Spawn {
    match difficulty {
        0 => Spawn::Gnarling,
        1 => Spawn::Adlet,
        2 => Spawn::Sahagin,
        3 => Spawn::Haniwa,
        4 => Spawn::Myrmidon,
        5 => if roll == 0 {
            Spawn::CultistWarlock
        } else if roll == 1 {
            Spawn::PossessedTurret
        } else {
            Spawn::CultistWarlord
        },
        _ => Spawn::Humanoid,
    }
}

/// The enemy a room of a difficulty spawns on a tile.
pub fn enemy_spawn(difficulty: u32, roll: u32) -> (r: Spawn)
    ensures
        r == enemy_spawn_spec(difficulty, roll),
{
    match difficulty {
        0 => Spawn::Gnarling,
        1 => Spawn::Adlet,
        2 => Spawn::Sahagin,
        3 => Spawn::Haniwa,
        4 => Spawn::Myrmidon,
        5 => match roll {
            0 => Spawn::CultistWarlock,
            1 => Spawn::PossessedTurret,
            _ => Spawn::CultistWarlord,
        },
        _ => Spawn::Humanoid,
    }
}

/// How many outcomes the roll that picks an enemy's weapon has; `None`
/// where the weapon is fixed or there is none.
pub fn main_tool_roll_range(enemy: Spawn) -> (r: Option<u32>)
    ensures
        r == match enemy {
            Spawn::Gnarling | Spawn::Adlet | Spawn::Sahagin | Spawn::Haniwa | Spawn::Myrmidon
            | Spawn::CultistWarlord => Some(5u32),
            _ => None::<u32>,
        },
{
    match enemy {
        Spawn::Gnarling | Spawn::Adlet | Spawn::Sahagin | Spawn::Haniwa | Spawn::Myrmidon
        | Spawn::CultistWarlord => Some(5),
        _ => None,
    }
}

/// The weapon of an enemy, from a roll below `main_tool_roll_range(enemy)`
/// (any roll where there is no range); `None` for a creature that is given
/// none.
pub open spec fn main_tool_spec(enemy: Spawn, roll: u32) -> Option<Seq<char>> {
    match enemy {
        Spawn::Gnarling => Some(
            if roll == 0 {
                "common.items.npc_weapons.biped_small.gnarling.adlet_bow"@
            } else if roll == 1 {
                "common.items.npc_weapons.biped_small.gnarling.gnoll_staff"@
            } else {
                "common.items.npc_weapons.biped_small.gnarling.wooden_spear"@
            },
        ),
        Spawn::Adlet => Some(
            if roll == 0 {
                "common.items.npc_weapons.biped_small.adlet.adlet_bow"@
            } else if roll == 1 {
                "common.items.npc_weapons.biped_small.adlet.gnoll_staff"@
            } else {
                "common.items.npc_weapons.biped_small.adlet.wooden_spear"@
            },
        ),
        Spawn::Sahagin => Some(
            if roll == 0 {
                "common.items.npc_weapons.biped_small.sahagin.adlet_bow"@
            } else if roll == 1 {
                "common.items.npc_weapons.biped_small.sahagin.gnoll_staff"@
            } else {
                "common.items.npc_weapons.biped_small.sahagin.wooden_spear"@
            },
        ),
        Spawn::Haniwa => Some(
            if roll == 0 {
                "common.items.npc_weapons.biped_small.haniwa.adlet_bow"@
            } else if roll == 1 {
                "common.items.npc_weapons.biped_small.haniwa.gnoll_staff"@
            } else {
                "common.items.npc_weapons.biped_small.haniwa.wooden_spear"@
            },
        ),
        Spawn::Myrmidon => Some(
            if roll == 0 {
                "common.items.npc_weapons.biped_small.myrmidon.adlet_bow"@
            } else if roll == 1 {
                "common.items.npc_weapons.biped_small.myrmidon.gnoll_staff"@
            } else {
                "common.items.npc_weapons.biped_small.myrmidon.wooden_spear"@
            },
        ),
        Spawn::CultistWarlock => Some("common.items.weapons.staff.cultist_staff"@),
        Spawn::CultistWarlord => Some(
            if roll == 0 {
                "common.items.weapons.axe.malachite_axe-0"@
            } else if roll == 1 || roll == 2 {
                "common.items.weapons.sword.cultist"@
            } else if roll == 3 {
                "common.items.weapons.hammer.cultist_purp_2h-0"@
            } else {
                "common.items.weapons.bow.bone-1"@
            },
        ),
        Spawn::Humanoid => Some("common.items.weapons.bow.bone-1"@),
        _ => None,
    }
}

/// The weapon of an enemy.
pub fn main_tool(enemy: Spawn, roll: u32) -> (r: Option<&'static str>)
    ensures
        match r {
            Some(t) => main_tool_spec(enemy, roll) == Some(t@),
            None => main_tool_spec(enemy, roll) is None,
        },
{
    match enemy {
        Spawn::Gnarling => Some(
            match roll {
                0 => "common.items.npc_weapons.biped_small.gnarling.adlet_bow",
                1 => "common.items.npc_weapons.biped_small.gnarling.gnoll_staff",
                _ => "common.items.npc_weapons.biped_small.gnarling.wooden_spear",
            },
        ),
        Spawn::Adlet => Some(
            match roll {
                0 => "common.items.npc_weapons.biped_small.adlet.adlet_bow",
                1 => "common.items.npc_weapons.biped_small.adlet.gnoll_staff",
                _ => "common.items.npc_weapons.biped_small.adlet.wooden_spear",
            },
        ),
        Spawn::Sahagin => Some(
            match roll {
                0 => "common.items.npc_weapons.biped_small.sahagin.adlet_bow",
                1 => "common.items.npc_weapons.biped_small.sahagin.gnoll_staff",
                _ => "common.items.npc_weapons.biped_small.sahagin.wooden_spear",
            },
        ),
        Spawn::Haniwa => Some(
            match roll {
                0 => "common.items.npc_weapons.biped_small.haniwa.adlet_bow",
                1 => "common.items.npc_weapons.biped_small.haniwa.gnoll_staff",
                _ => "common.items.npc_weapons.biped_small.haniwa.wooden_spear",
            },
        ),
        Spawn::Myrmidon => Some(
            match roll {
                0 => "common.items.npc_weapons.biped_small.myrmidon.adlet_bow",
                1 => "common.items.npc_weapons.biped_small.myrmidon.gnoll_staff",
                _ => "common.items.npc_weapons.biped_small.myrmidon.wooden_spear",
            },
        ),
        Spawn::CultistWarlock => Some("common.items.weapons.staff.cultist_staff"),
        Spawn::CultistWarlord => Some(
            match roll {
                0 => "common.items.weapons.axe.malachite_axe-0",
                1 | 2 => "common.items.weapons.sword.cultist",
                3 => "common.items.weapons.hammer.cultist_purp_2h-0",
                _ => "common.items.weapons.bow.bone-1",
            },
        ),
        Spawn::Humanoid => Some("common.items.weapons.bow.bone-1"),
        _ => None,
    }
}

/// The boss of a room of a difficulty.
pub open spec fn boss_spec(difficulty: u32) -> Spawn {
    match difficulty {
        0 => Spawn::Harvester,
        1 => Spawn::Yeti,
        2 => Spawn::TidalWarrior,
        3 => Spawn::ClayGolem,
        4 => Spawn::Minotaur,
        5 => Spawn::Mindflayer,
        _ => Spawn::Sheep,
    }
}

/// The boss of a room of a difficulty.
pub fn boss(difficulty: u32) -> (r: Spawn)
    ensures
        r == boss_spec(difficulty),
{
    match difficulty {
        0 => Spawn::Harvester,
        1 => Spawn::Yeti,
        2 => Spawn::TidalWarrior,
        3 => Spawn::ClayGolem,
        4 => Spawn::Minotaur,
        5 => Spawn::Mindflayer,
        _ => Spawn::Sheep,
    }
}

/// The loot table the boss of a room of a difficulty drops from.
pub open spec fn boss_loot_table_spec(difficulty: u32) -> Seq<char> {
    match difficulty {
        0 | 1 => "common.loot_tables.loot_table_weapon_uncommon"@,
        2 => "common.loot_tables.loot_table_armor_heavy"@,
        3 => "common.loot_tables.loot_table_weapon_rare"@,
        4 => "common.loot_tables.loot_table_miniboss"@,
        5 => "common.loot_tables.loot_table_mindflayer"@,
        _ => "common.loot_tables.loot_table_armor_misc"@,
    }
}

/// The loot table the boss of a room of a difficulty drops from.
pub fn boss_loot_table(difficulty: u32) -> (r: &'static str)
    ensures
        r@ == boss_loot_table_spec(difficulty),
{
    match difficulty {
        0 | 1 => "common.loot_tables.loot_table_weapon_uncommon",
        2 => "common.loot_tables.loot_table_armor_heavy",
        3 => "common.loot_tables.loot_table_weapon_rare",
        4 => "common.loot_tables.loot_table_miniboss",
        5 => "common.loot_tables.loot_table_mindflayer",
        _ => "common.loot_tables.loot_table_armor_misc",
    }
}

/// The party that guards the centre of a miniboss room of a difficulty.
pub open spec fn minibosses_spec(difficulty: u32) -> Seq<Spawn> {
    match difficulty {
        0 => seq![Spawn::Bonerattler],
        1 => seq![Spawn::Bonerattler, Spawn::Bonerattler, Spawn::Bonerattler],
        2 => Seq::new(6, |i: int| Spawn::Hakulaq),
        3 => seq![Spawn::AnimalTrainer, Spawn::TamedDarkhound, Spawn::TamedDarkhound],
        4 => seq![Spawn::DullahanGuard],
        5 => seq![Spawn::StoneworkDefender],
        _ => seq![Spawn::Sheep],
    }
}

/// The party that guards the centre of a miniboss room of a difficulty.
pub fn minibosses(difficulty: u32) -> (r: Vec<Spawn>)
    ensures
        r@ == minibosses_spec(difficulty),
{
    let mut r: Vec<Spawn> = Vec::new();
    match difficulty {
        0 => {
            r.push(Spawn::Bonerattler);
        },
        1 => {
            r.push(Spawn::Bonerattler);
            r.push(Spawn::Bonerattler);
            r.push(Spawn::Bonerattler);
        },
        2 => {
            let mut i: usize = 0;
            while i < 6
                invariant
                    i <= 6,
                    r@ == Seq::new(i as nat, |j: int| Spawn::Hakulaq),
                decreases 6 - i,
            {
                r.push(Spawn::Hakulaq);
                i = i + 1;
                assert(r@ =~= Seq::new(i as nat, |j: int| Spawn::Hakulaq));
            }
        },
        3 => {
            r.push(Spawn::AnimalTrainer);
            r.push(Spawn::TamedDarkhound);
            r.push(Spawn::TamedDarkhound);
        },
        4 => {
            r.push(Spawn::DullahanGuard);
        },
        5 => {
            r.push(Spawn::StoneworkDefender);
        },
        _ => {
            r.push(Spawn::Sheep);
        },
    }
    proof {
        assert(r@ =~= minibosses_spec(difficulty));
    }
    r
}

/// The loot table the minibosses of a room of a difficulty drop from.
pub open spec fn miniboss_loot_table_spec(difficulty: u32) -> Seq<char> {
    match difficulty {
        0 | 1 | 2 => "common.loot_tables.loot_table_animal_parts"@,
        3 | 4 => "common.loot_tables.loot_table_weapon_rare"@,
        5 => "common.loot_tables.loot_table_miniboss"@,
        _ => "common.loot_tables.loot_table_armor_misc"@,
    }
}

/// The loot table the minibosses of a room of a difficulty drop from.
pub fn miniboss_loot_table(difficulty: u32) -> (r: &'static str)
    ensures
        r@ == miniboss_loot_table_spec(difficulty),
{
    match difficulty {
        0 | 1 | 2 => "common.loot_tables.loot_table_animal_parts",
        3 | 4 => "common.loot_tables.loot_table_weapon_rare",
        5 => "common.loot_tables.loot_table_miniboss",
        _ => "common.loot_tables.loot_table_armor_misc",
    }
}

/// Whether an enemy roll of a room tile brings a creature: only a roll of
/// zero does, and never on a pillar.
pub fn enemy_roll_spawns(roll: usize, pillar: bool) -> (b: bool)
    ensures
        b == (roll == 0 && !pillar),
{
    roll == 0 && !pillar
}

/// The level of a boss or miniboss whose rolled level is `l`: five times it.
pub fn guardian_level(l: u16) -> (r: u16)
    requires
        l <= u16::MAX / 5,
    ensures
        r == 5 * l,
{
    l * 5
}

/// The tile a boss or miniboss stands on: the centre tile of its room, or
/// the next tile along the diagonal when a pillar stands there.
pub open spec fn guardian_tile_spec(center: Vec2i, pillars: Option<i32>) -> Vec2i {
    if is_pillar(center, pillars) {
        Vec2i { x: (center.x + 1) as i32, y: (center.y + 1) as i32 }
    } else {
        center
    }
}

/// The tile a boss or miniboss of a room with centre tile `center` stands on.
pub fn guardian_tile(center: Vec2i, pillars: Option<i32>) -> (r: Vec2i)
    requires
        pillars is Some ==> pillars.unwrap() > 0,
        -COORD_LIMIT <= center.x <= COORD_LIMIT,
        -COORD_LIMIT <= center.y <= COORD_LIMIT,
    ensures
        r == guardian_tile_spec(center, pillars),
{
    if tile_is_pillar(center, pillars) {
        Vec2i { x: center.x + 1, y: center.y + 1 }
    } else {
        center
    }
}

/// A block coordinate, taken modulo the tile size (the remainder is never
/// negative).
pub open spec fn in_tile(v: int) -> int {
    v % (TILE_SIZE as int)
}

fn in_tile_exec(v: i32) -> (r: i32)
    requires
        -COORD_LIMIT <= v <= COORD_LIMIT,
    ensures
        r == in_tile(v as int),
{
    if v >= 0 {
        v % TILE_SIZE
    } else {
        let n = -v - 1;
        let q = n / TILE_SIZE;
        let m = n % TILE_SIZE;
        proof {
            assert(v == -TILE_SIZE * (q + 1) + (TILE_SIZE - 1 - m));
            vstd::arithmetic::div_mod::lemma_fundamental_div_mod_converse(
                v as int,
                TILE_SIZE as int,
                -(q + 1) as int,
                (TILE_SIZE - 1 - m) as int,
            );
        }
        TILE_SIZE - 1 - m
    }
}

/// Whether the column at block `block` (relative to the dungeon's origin),
/// lying on tile `tile_pos`, is where the boss or miniboss of a room with
/// centre tile `center` appears: the middle column of the guardian's tile.
pub fn guardian_appears_at(center: Vec2i, pillars: Option<i32>, tile_pos: Vec2i, block: Vec2i) -> (r: bool)
    requires
        pillars is Some ==> pillars.unwrap() > 0,
        -COORD_LIMIT <= center.x <= COORD_LIMIT,
        -COORD_LIMIT <= center.y <= COORD_LIMIT,
        -COORD_LIMIT <= block.x <= COORD_LIMIT,
        -COORD_LIMIT <= block.y <= COORD_LIMIT,
    ensures
        r == (tile_pos == guardian_tile_spec(center, pillars) && in_tile(block.x as int) == TILE_SIZE / 2
            && in_tile(block.y as int) == TILE_SIZE / 2),
{
    let g = guardian_tile(center, pillars);
    tile_pos == g && in_tile_exec(block.x) == TILE_SIZE / 2 && in_tile_exec(block.y) == TILE_SIZE / 2
}

/// A boss or miniboss never stands on a pillar, unless every tile of the
/// room is one (pillars one tile apart).
pub proof fn guardian_avoids_pillars(center: Vec2i, pillars: Option<i32>)
    requires
        pillars is Some ==> pillars.unwrap() > 1,
        -COORD_LIMIT <= center.x <= COORD_LIMIT,
        -COORD_LIMIT <= center.y <= COORD_LIMIT,
    ensures
        !is_pillar(guardian_tile_spec(center, pillars), pillars),
{
    if let Some(space) = pillars {
        if is_pillar(center, pillars) {
            let s = space as int;
            vstd::arithmetic::div_mod::lemma_fundamental_div_mod(center.x as int, s);
            let q = (center.x as int) / s;
            vstd::arithmetic::div_mod::lemma_fundamental_div_mod_converse(center.x as int + 1, s, q, 1);
        }
    }
}

/// What the population of a chunk does at one column of a floor.
#[derive(Clone, Copy, Debug, PartialEq, Eq, Structural)]
pub enum ColumnEvent {
    /// A roll for an enemy on a tile of room `room`: an enemy appears on a
    /// winning roll unless the tile holds a pillar.
    EnemyRoll { room: usize, pillar: bool },
    /// The boss of room `room` appears.
    Boss { room: usize },
    /// The minibosses of room `room` appear.
    Minibosses { room: usize },
}

/// Whom a spawned creature sides with.
#[derive(Clone, Copy, Debug, PartialEq, Eq, Structural)]
pub enum Alignment {
    Wild,
    Enemy,
    Npc,
    Tame,
    Passive,
}

/// An event at a column, given relative to the dungeon's origin, with the
/// alignment of the creatures it brings.
#[derive(Clone, Copy, Debug, PartialEq, Eq, Structural)]
pub struct PlannedEvent {
    pub column: Vec2i,
    pub alignment: Alignment,
    pub event: ColumnEvent,
}

/// The centre of a rectangle, rounded towards zero.
pub open spec fn rect_center(r: Rect) -> Vec2i {
    Vec2i { x: trunc_half(r.x + r.x + r.w) as i32, y: trunc_half(r.y + r.y + r.h) as i32 }
}

impl Floor {
    /// The floor is ready to be populated: it is well formed, every room
    /// tile names one of its rooms, and its rooms lie near the floor and
    /// space their pillars at least a tile apart.
    pub open spec fn supplement_ready(&self) -> bool {
        &&& self.wf()
        &&& -1000 <= self.tile_offset.x <= 1000
        &&& -1000 <= self.tile_offset.y <= 1000
        &&& forall|i: int|
            #![trigger self.tiles_view()[i]]
            0 <= i < self.tiles_view().len() ==> (self.tiles_view()[i] matches Tile::Room(r) ==> r
                < self.rooms_info().len())
        &&& forall|r: int|
            #![trigger self.rooms_info()[r]]
            0 <= r < self.rooms_info().len() ==> {
                let room = self.rooms_info()[r];
                &&& -2000 <= room.area.x <= 2000 && -2000 <= room.area.y <= 2000
                &&& 0 <= room.area.w <= 1000 && 0 <= room.area.h <= 1000
                &&& room.pillars is Some ==> room.pillars.unwrap() > 0
            }
    }

    /// The tile that holds the column `(x, y)` (relative to the dungeon's
    /// origin).
    pub open spec fn column_tile(&self, x: int, y: int) -> Vec2i {
        Vec2i { x: (tile_of(x) - self.tile_offset.x) as i32, y: (tile_of(y) - self.tile_offset.y) as i32 }
    }

    /// What happens at the column `(x, y)`: on a room tile, a roll for an
    /// enemy when the room has enemies; then, at the middle column of the
    /// tile its boss or minibosses stand on, the boss and the minibosses.
    pub open spec fn column_events(&self, x: int, y: int) -> Seq<PlannedEvent> {
        let t = self.column_tile(x, y);
        let col = Vec2i { x: x as i32, y: y as i32 };
        match self.tile(t) {
            Some(Tile::Room(r)) => {
                let room = self.rooms_info()[r as int];
                let here = t == guardian_tile_spec(rect_center(room.area), room.pillars) && in_tile(x)
                    == TILE_SIZE / 2 && in_tile(y) == TILE_SIZE / 2;
                (if room.has_enemies {
                    seq![PlannedEvent { column: col, alignment: Alignment::Enemy, event: ColumnEvent::EnemyRoll { room: r, pillar: is_pillar(t, room.pillars) } }]
                } else {
                    Seq::empty()
                }) + (if room.boss && here {
                    seq![PlannedEvent { column: col, alignment: Alignment::Enemy, event: ColumnEvent::Boss { room: r } }]
                } else {
                    Seq::empty()
                }) + (if room.miniboss && here {
                    seq![PlannedEvent { column: col, alignment: Alignment::Enemy, event: ColumnEvent::Minibosses { room: r } }]
                } else {
                    Seq::empty()
                })
            },
            _ => Seq::empty(),
        }
    }

    /// The events of the columns `(x, y0)` up to `(x, y - 1)`.
    pub open spec fn row_events(&self, x: int, y0: int, y: int) -> Seq<PlannedEvent>
        decreases y - y0,
    {
        if y <= y0 {
            Seq::empty()
        } else {
            self.row_events(x, y0, y - 1) + self.column_events(x, y - 1)
        }
    }

    /// The events of the columns with `x0 <= x' < x` and `y0 <= y' < y1`,
    /// column by column along y, row by row along x.
    pub open spec fn area_events(&self, x0: int, x: int, y0: int, y1: int) -> Seq<PlannedEvent>
        decreases x - x0,
    {
        if x <= x0 {
            Seq::empty()
        } else {
            self.area_events(x0, x - 1, y0, y1) + self.row_events(x - 1, y0, y1)
        }
    }

    /// Whether the floor is ready to be populated.
    pub fn is_supplement_ready(&self) -> (b: bool)
        requires
            self.wf(),
        ensures
            b == self.supplement_ready(),
    {
        if self.tile_offset.x < -1000 || self.tile_offset.x > 1000 || self.tile_offset.y < -1000
            || self.tile_offset.y > 1000 {
            return false;
        }
        let mut i: usize = 0;
        while i < self.tiles.len()
            invariant
                self.wf(),
                i <= self.tiles_view().len(),
                forall|k: int|
                    #![trigger self.tiles_view()[k]]
                    0 <= k < i ==> (self.tiles_view()[k] matches Tile::Room(r) ==> r < self.rooms_info().len()),
            decreases self.tiles_view().len() - i,
        {
            match self.tiles[i] {
                Tile::Room(r) => {
                    if r >= self.rooms.len() {
                        return false;
                    }
                },
                _ => {},
            }
            i += 1;
        }
        let mut k: usize = 0;
        while k < self.rooms.len()
            invariant
                self.wf(),
                -1000 <= self.tile_offset.x <= 1000,
                -1000 <= self.tile_offset.y <= 1000,
                k <= self.rooms_info().len(),
                forall|i: int|
                    #![trigger self.tiles_view()[i]]
                    0 <= i < self.tiles_view().len() ==> (self.tiles_view()[i] matches Tile::Room(r) ==> r
                        < self.rooms_info().len()),
                forall|q: int|
                    #![trigger self.rooms_info()[q]]
                    0 <= q < k ==> {
                        let room = self.rooms_info()[q];
                        &&& -2000 <= room.area.x <= 2000 && -2000 <= room.area.y <= 2000
                        &&& 0 <= room.area.w <= 1000 && 0 <= room.area.h <= 1000
                        &&& room.pillars is Some ==> room.pillars.unwrap() > 0
                    },
            decreases self.rooms_info().len() - k,
        {
            let room = self.rooms[k];
            let a = room.area;
            if a.x < -2000 || a.x > 2000 || a.y < -2000 || a.y > 2000 || a.w < 0 || a.w > 1000 || a.h < 0 || a.h
                > 1000 {
                return false;
            }
            match room.pillars {
                Some(space) => {
                    if space <= 0 {
                        return false;
                    }
                },
                None => {},
            }
            k += 1;
        }
        true
    }

    /// Every event of a row brings enemies.
    proof fn lemma_row_events_enemy(&self, x: int, y0: int, y: int)
        ensures
            forall|i: int|
                0 <= i < self.row_events(x, y0, y).len() ==> (#[trigger] self.row_events(x, y0, y)[i]).alignment
                    == Alignment::Enemy,
        decreases y - y0,
    {
        if y > y0 {
            self.lemma_row_events_enemy(x, y0, y - 1);
            let a = self.row_events(x, y0, y - 1);
            let c = self.column_events(x, y - 1);
            assert(self.row_events(x, y0, y) == a + c);
            assert forall|i: int| 0 <= i < (a + c).len() implies (#[trigger] (a + c)[i]).alignment
                == Alignment::Enemy by {
                if i >= a.len() {
                    assert((a + c)[i] == c[i - a.len()]);
                }
            }
        }
    }

    /// Every event of an area brings enemies.
    proof fn lemma_area_events_enemy(&self, x0: int, x: int, y0: int, y1: int)
        ensures
            forall|i: int|
                0 <= i < self.area_events(x0, x, y0, y1).len() ==> (#[trigger] self.area_events(
                    x0,
                    x,
                    y0,
                    y1,
                )[i]).alignment == Alignment::Enemy,
        decreases x - x0,
    {
        if x > x0 {
            self.lemma_area_events_enemy(x0, x - 1, y0, y1);
            self.lemma_row_events_enemy(x - 1, y0, y1);
            let a = self.area_events(x0, x - 1, y0, y1);
            let b = self.row_events(x - 1, y0, y1);
            assert(self.area_events(x0, x, y0, y1) == a + b);
            assert forall|i: int| 0 <= i < (a + b).len() implies (#[trigger] (a + b)[i]).alignment
                == Alignment::Enemy by {
                if i >= a.len() {
                    assert((a + b)[i] == b[i - a.len()]);
                }
            }
        }
    }

    /// Appends the events of the column `(x, y)`.
    fn push_column_events(&self, out: &mut Vec<PlannedEvent>, x: i32, y: i32)
        requires
            self.supplement_ready(),
            -COORD_LIMIT / 2 <= x <= COORD_LIMIT / 2,
            -COORD_LIMIT / 2 <= y <= COORD_LIMIT / 2,
        ensures
            final(out)@ == old(out)@ + self.column_events(x as int, y as int),
    {
        let t = Vec2i { x: tile_of_exec(x) - self.tile_offset.x, y: tile_of_exec(y) - self.tile_offset.y };
        let col = Vec2i { x, y };
        match self.get(t) {
            Some(Tile::Room(r)) => {
                proof {
                    assert(Self::in_grid(t));
                }
                let room = self.rooms[r];
                let center = room.area.center();
                let here = guardian_appears_at(center, room.pillars, t, col);
                let ghost before = out@;
                if room.has_enemies {
                    let pillar = tile_is_pillar(t, room.pillars);
                    out.push(PlannedEvent { column: col, alignment: Alignment::Enemy, event: ColumnEvent::EnemyRoll { room: r, pillar } });
                }
                let ghost mid1 = out@;
                if room.boss && here {
                    out.push(PlannedEvent { column: col, alignment: Alignment::Enemy, event: ColumnEvent::Boss { room: r } });
                }
                let ghost mid2 = out@;
                if room.miniboss && here {
                    out.push(PlannedEvent { column: col, alignment: Alignment::Enemy, event: ColumnEvent::Minibosses { room: r } });
                }
                proof {
                    let rm = self.rooms_info()[r as int];
                    assert(rect_center(rm.area) == center);
                    let e1: Seq<PlannedEvent> = if rm.has_enemies {
                        seq![PlannedEvent { column: col, alignment: Alignment::Enemy, event: ColumnEvent::EnemyRoll { room: r, pillar: is_pillar(t, rm.pillars) } }]
                    } else {
                        Seq::empty()
                    };
                    let e2: Seq<PlannedEvent> = if rm.boss && here {
                        seq![PlannedEvent { column: col, alignment: Alignment::Enemy, event: ColumnEvent::Boss { room: r } }]
                    } else {
                        Seq::empty()
                    };
                    let e3: Seq<PlannedEvent> = if rm.miniboss && here {
                        seq![PlannedEvent { column: col, alignment: Alignment::Enemy, event: ColumnEvent::Minibosses { room: r } }]
                    } else {
                        Seq::empty()
                    };
                    assert(mid1 =~= before + e1);
                    assert(mid2 =~= mid1 + e2);
                    assert(out@ =~= mid2 + e3);
                    assert(out@ =~= old(out)@ + (e1 + e2 + e3));
                }
            },
            _ => {
                proof {
                    assert(out@ =~= old(out)@ + Seq::<PlannedEvent>::empty());
                }
            },
        }
    }

    /// The events that populating the area of columns from `area_min` up to
    /// (not including) `area_max`, relative to the dungeon's origin, brings
    /// about on this floor, in the order the columns are walked.
    pub fn supplement_plan(&self, area_min: Vec2i, area_max: Vec2i) -> (r: Vec<PlannedEvent>)
        requires
            self.supplement_ready(),
            -COORD_LIMIT / 2 <= area_min.x && area_max.x <= COORD_LIMIT / 2,
            -COORD_LIMIT / 2 <= area_min.y && area_max.y <= COORD_LIMIT / 2,
        ensures
            r@ == self.area_events(area_min.x as int, area_max.x as int, area_min.y as int, area_max.y as int),
            forall|i: int| 0 <= i < r@.len() ==> (#[trigger] r@[i]).alignment == Alignment::Enemy,
    {
        proof {
            self.lemma_area_events_enemy(
                area_min.x as int,
                area_max.x as int,
                area_min.y as int,
                area_max.y as int,
            );
        }
        let mut r: Vec<PlannedEvent> = Vec::new();
        let mut x = area_min.x;
        if x > area_max.x {
            return r;
        }
        while x < area_max.x
            invariant
                self.supplement_ready(),
                -COORD_LIMIT / 2 <= area_min.x <= x <= area_max.x <= COORD_LIMIT / 2,
                -COORD_LIMIT / 2 <= area_min.y && area_max.y <= COORD_LIMIT / 2,
                r@ == self.area_events(area_min.x as int, x as int, area_min.y as int, area_max.y as int),
            decreases area_max.x - x,
        {
            let mut y = area_min.y;
            if y < area_max.y {
                while y < area_max.y
                    invariant
                        self.supplement_ready(),
                        -COORD_LIMIT / 2 <= area_min.x <= x < area_max.x <= COORD_LIMIT / 2,
                        -COORD_LIMIT / 2 <= area_min.y <= y <= area_max.y <= COORD_LIMIT / 2,
                        r@ == self.area_events(area_min.x as int, x as int, area_min.y as int, area_max.y as int)
                            + self.row_events(x as int, area_min.y as int, y as int),
                    decreases area_max.y - y,
                {
                    self.push_column_events(&mut r, x, y);
                    proof {
                        assert(self.row_events(x as int, area_min.y as int, y + 1) == self.row_events(
                            x as int,
                            area_min.y as int,
                            y as int,
                        ) + self.column_events(x as int, y as int));
                    }
                    y = y + 1;
                }
            }
            proof {
                assert(self.area_events(area_min.x as int, x + 1, area_min.y as int, area_max.y as int)
                    == self.area_events(area_min.x as int, x as int, area_min.y as int, area_max.y as int)
                    + self.row_events(x as int, area_min.y as int, area_max.y as int));
                if area_min.y >= area_max.y {
                    assert(self.row_events(x as int, area_min.y as int, area_max.y as int) =~= Seq::empty());
                    assert(r@ =~= r@ + Seq::<PlannedEvent>::empty());
                }
            }
            x = x + 1;
        }
        r
    }
}


/// The creatures of the six difficulties, from the easiest: the enemy of
/// each (the hardest has three, picked by the roll), the boss, and the
/// minibosses; difficulties past the sixth fall back to a humanoid enemy
/// and sheep for bosses and minibosses.
pub proof fn creatures_by_difficulty(difficulty: u32, roll: u32)
    ensures
        boss_spec(difficulty) == if difficulty < 6 {
            seq![
                Spawn::Harvester,
                Spawn::Yeti,
                Spawn::TidalWarrior,
                Spawn::ClayGolem,
                Spawn::Minotaur,
                Spawn::Mindflayer,
            ][difficulty as int]
        } else {
            Spawn::Sheep
        },
        difficulty < 5 ==> enemy_spawn_spec(difficulty, roll) == seq![
            Spawn::Gnarling,
            Spawn::Adlet,
            Spawn::Sahagin,
            Spawn::Haniwa,
            Spawn::Myrmidon,
        ][difficulty as int],
        difficulty == 5 ==> enemy_spawn_spec(difficulty, roll) == if roll < 2 {
            seq![Spawn::CultistWarlock, Spawn::PossessedTurret][roll as int]
        } else {
            Spawn::CultistWarlord
        },
        difficulty > 5 ==> enemy_spawn_spec(difficulty, roll) == Spawn::Humanoid,
        difficulty == 0 ==> minibosses_spec(difficulty) =~= seq![Spawn::Bonerattler],
        difficulty == 1 ==> minibosses_spec(difficulty) =~= seq![Spawn::Bonerattler, Spawn::Bonerattler, Spawn::Bonerattler],
        difficulty == 2 ==> minibosses_spec(difficulty).len() == 6 && forall|i: int|
            0 <= i < 6 ==> #[trigger] minibosses_spec(difficulty)[i] == Spawn::Hakulaq,
        difficulty == 3 ==> minibosses_spec(difficulty) =~= seq![
            Spawn::AnimalTrainer,
            Spawn::TamedDarkhound,
            Spawn::TamedDarkhound,
        ],
        difficulty == 4 ==> minibosses_spec(difficulty) =~= seq![Spawn::DullahanGuard],
        difficulty == 5 ==> minibosses_spec(difficulty) =~= seq![Spawn::StoneworkDefender],
        difficulty > 5 ==> minibosses_spec(difficulty) =~= seq![Spawn::Sheep],
{
}

/// The loot tables guardians drop from, by difficulty: bosses of the two
/// easiest drop uncommon weapons, then heavy armour, rare weapons, the
/// miniboss table and the mindflayer's own; minibosses of the three easiest
/// drop animal parts, of the next two rare weapons, of the hardest the
/// miniboss table; past the sixth difficulty both drop miscellaneous armour.
pub proof fn guardian_loot_by_difficulty(difficulty: u32)
    ensures
        boss_loot_table_spec(difficulty) == if difficulty < 6 {
            seq![
                "common.loot_tables.loot_table_weapon_uncommon"@,
                "common.loot_tables.loot_table_weapon_uncommon"@,
                "common.loot_tables.loot_table_armor_heavy"@,
                "common.loot_tables.loot_table_weapon_rare"@,
                "common.loot_tables.loot_table_miniboss"@,
                "common.loot_tables.loot_table_mindflayer"@,
            ][difficulty as int]
        } else {
            "common.loot_tables.loot_table_armor_misc"@
        },
        miniboss_loot_table_spec(difficulty) == if difficulty < 6 {
            seq![
                "common.loot_tables.loot_table_animal_parts"@,
                "common.loot_tables.loot_table_animal_parts"@,
                "common.loot_tables.loot_table_animal_parts"@,
                "common.loot_tables.loot_table_weapon_rare"@,
                "common.loot_tables.loot_table_weapon_rare"@,
                "common.loot_tables.loot_table_miniboss"@,
            ][difficulty as int]
        } else {
            "common.loot_tables.loot_table_armor_misc"@
        },
{
}

/// The weapons enemies carry: the small bipeds of the five easier
/// difficulties a bow on a roll of zero, a staff on a roll of one and a
/// spear otherwise, each of their own species; the cultist warlock its
/// staff; the cultist warlord, by roll, an axe, a sword (rolls one and
/// two), a hammer, or a bow from four on; a humanoid a bone bow; other
/// creatures nothing.
pub proof fn enemy_weapons(enemy: Spawn, roll: u32)
    ensures
        enemy == Spawn::Gnarling ==> main_tool_spec(enemy, roll) == Some(
            if roll < 2 {
                seq!["common.items.npc_weapons.biped_small.gnarling.adlet_bow"@, "common.items.npc_weapons.biped_small.gnarling.gnoll_staff"@][roll as int]
            } else {
                "common.items.npc_weapons.biped_small.gnarling.wooden_spear"@
            },
        ),
        enemy == Spawn::Adlet ==> main_tool_spec(enemy, roll) == Some(
            if roll < 2 {
                seq!["common.items.npc_weapons.biped_small.adlet.adlet_bow"@, "common.items.npc_weapons.biped_small.adlet.gnoll_staff"@][roll as int]
            } else {
                "common.items.npc_weapons.biped_small.adlet.wooden_spear"@
            },
        ),
        enemy == Spawn::Sahagin ==> main_tool_spec(enemy, roll) == Some(
            if roll < 2 {
                seq!["common.items.npc_weapons.biped_small.sahagin.adlet_bow"@, "common.items.npc_weapons.biped_small.sahagin.gnoll_staff"@][roll as int]
            } else {
                "common.items.npc_weapons.biped_small.sahagin.wooden_spear"@
            },
        ),
        enemy == Spawn::Haniwa ==> main_tool_spec(enemy, roll) == Some(
            if roll < 2 {
                seq!["common.items.npc_weapons.biped_small.haniwa.adlet_bow"@, "common.items.npc_weapons.biped_small.haniwa.gnoll_staff"@][roll as int]
            } else {
                "common.items.npc_weapons.biped_small.haniwa.wooden_spear"@
            },
        ),
        enemy == Spawn::Myrmidon ==> main_tool_spec(enemy, roll) == Some(
            if roll < 2 {
                seq!["common.items.npc_weapons.biped_small.myrmidon.adlet_bow"@, "common.items.npc_weapons.biped_small.myrmidon.gnoll_staff"@][roll as int]
            } else {
                "common.items.npc_weapons.biped_small.myrmidon.wooden_spear"@
            },
        ),
        enemy == Spawn::CultistWarlock ==> main_tool_spec(enemy, roll) == Some(
            "common.items.weapons.staff.cultist_staff"@,
        ),
        enemy == Spawn::CultistWarlord ==> main_tool_spec(enemy, roll) == Some(
            if roll < 4 {
                seq![
                    "common.items.weapons.axe.malachite_axe-0"@,
                    "common.items.weapons.sword.cultist"@,
                    "common.items.weapons.sword.cultist"@,
                    "common.items.weapons.hammer.cultist_purp_2h-0"@,
                ][roll as int]
            } else {
                "common.items.weapons.bow.bone-1"@
            },
        ),
        enemy == Spawn::Humanoid ==> main_tool_spec(enemy, roll) == Some("common.items.weapons.bow.bone-1"@),
        !(enemy == Spawn::Gnarling || enemy == Spawn::Adlet || enemy == Spawn::Sahagin || enemy == Spawn::Haniwa
            || enemy == Spawn::Myrmidon || enemy == Spawn::CultistWarlock || enemy == Spawn::CultistWarlord || enemy
            == Spawn::Humanoid) ==> main_tool_spec(enemy, roll) is None,
{
}

/// The names creatures are given: each its own kind's name, spelled with
/// spaces between words (a cultist warlock is "Cultist Warlock"); a sheep
/// gets none.
pub proof fn creature_names(s: Spawn)
    ensures
        s == Spawn::Gnarling ==> spawn_name_spec(s) == Some("Gnarling"@),
        s == Spawn::Adlet ==> spawn_name_spec(s) == Some("Adlet"@),
        s == Spawn::Sahagin ==> spawn_name_spec(s) == Some("Sahagin"@),
        s == Spawn::Haniwa ==> spawn_name_spec(s) == Some("Haniwa"@),
        s == Spawn::Myrmidon ==> spawn_name_spec(s) == Some("Myrmidon"@),
        s == Spawn::CultistWarlock ==> spawn_name_spec(s) == Some("Cultist Warlock"@),
        s == Spawn::PossessedTurret ==> spawn_name_spec(s) == Some("Possessed Turret"@),
        s == Spawn::CultistWarlord ==> spawn_name_spec(s) == Some("Cultist Warlord"@),
        s == Spawn::Humanoid ==> spawn_name_spec(s) == Some("Humanoid"@),
        s == Spawn::Harvester ==> spawn_name_spec(s) == Some("Harvester"@),
        s == Spawn::Yeti ==> spawn_name_spec(s) == Some("Yeti"@),
        s == Spawn::TidalWarrior ==> spawn_name_spec(s) == Some("Tidal Warrior"@),
        s == Spawn::ClayGolem ==> spawn_name_spec(s) == Some("Clay Golem"@),
        s == Spawn::Minotaur ==> spawn_name_spec(s) == Some("Minotaur"@),
        s == Spawn::Mindflayer ==> spawn_name_spec(s) == Some("Mindflayer"@),
        s == Spawn::Bonerattler ==> spawn_name_spec(s) == Some("Bonerattler"@),
        s == Spawn::Hakulaq ==> spawn_name_spec(s) == Some("Hakulaq"@),
        s == Spawn::AnimalTrainer ==> spawn_name_spec(s) == Some("Animal Trainer"@),
        s == Spawn::TamedDarkhound ==> spawn_name_spec(s) == Some("Tamed Darkhound"@),
        s == Spawn::DullahanGuard ==> spawn_name_spec(s) == Some("Dullahan Guard"@),
        s == Spawn::StoneworkDefender ==> spawn_name_spec(s) == Some("Stonework Defender"@),
        s == Spawn::Sheep ==> spawn_name_spec(s) is None,
{
}

} // verus!
