use veloren_logic::combat::{equipped_item_and_tool, get_weapons, reaches_target, reaching_parts, GroupTarget};
use veloren_logic::combat::GroupTarget::{InGroup, OutOfGroup};
use veloren_logic::combat::{check_requirements, Payment, RequirementCheck};
use veloren_logic::inventory::item::{ArmorKind, Item, ItemDef, ItemKind, ToolKind};
use veloren_logic::inventory::slot::EquipSlot;
use veloren_logic::inventory::trade_pricing::{price_list_by_path, price_list_for_good, Good, PriceList};
use veloren_logic::inventory::Inventory;
use veloren_logic::mesh::atlas::{add_to_atlas, new_mesh_atlas, AtlasFull, GreedyMesh, TodoRect};
use veloren_logic::mesh::greedy::{
    atlas_settings, greedy_mesh_cross_section, greedy_mesh_layer, next_atlas_size, GreedyQuad,
};
use veloren_logic::net::server_msg::{ClientType, PresenceKind, ServerGeneralKind, ServerMsgKind};
use veloren_logic::net::terrain_requests::{chunk_request_outcome, ChunkRequestOutcome};
use veloren_logic::persistence::character::{check_character_limit, pseudo_containers, Error, ItemRecord, ItemsBfs};
use veloren_logic::server_cli::tui_runner::{handle_key, layout, log_scroll, KeyAction, KeyInput, TermRect};
use rand::rngs::StdRng;
use rand::SeedableRng;
use veloren_logic::site::dungeon::{
    boss_room_size, enemy_loot_roll_range, enemy_loot_table, farthest_stair_tile, floor_count, is_final_level,
    random_difficulty, tile_is_pillar, Floor, Rect, Room, Tile, Vec2i, STAIR_ROOM_HEIGHT, floor_bases,
    name_suffix, trees_allowed, waypoint_in_chunk, Dungeon, column_pos, light_spot, pillar_light, ColumnPos,
};
use veloren_logic::site::spawns::{
    boss, boss_loot_table, enemy_kind_roll_range, enemy_roll_spawns, enemy_spawn, guardian_appears_at, guardian_level,
    guardian_tile, main_tool, main_tool_roll_range, miniboss_loot_table, minibosses, Alignment, ColumnEvent, PlannedEvent, Spawn,
};
use veloren_logic::site2::gen::{Aabb, Block, BlockKind, Fill, Primitive, Rgb, Store, Vec3i};
use veloren_logic::states::climb::{climb_continues, climb_energy_use, Climb};
use veloren_logic::states::roll::{ComboResume, RollData, RollNext, RollStaticData, StageSection};

// ----- greedy meshing -----

fn q(x: usize, y: usize, width: usize, height: usize, meta: u64) -> GreedyQuad {
    GreedyQuad { x, y, width, height, meta }
}

#[test]
fn greedy_layer_merges_rectangles() {
    // 4 x 3 mask:
    // A A B .
    // A A B .
    // . A A A
    let a = Some(1u64);
    let b = Some(2u64);
    let mask = vec![a, a, b, None, a, a, b, None, None, a, a, a];
    let quads = greedy_mesh_layer(4, 3, mask);
    assert_eq!(
        quads,
        vec![q(0, 0, 2, 2, 1), q(2, 0, 1, 2, 2), q(1, 2, 3, 1, 1)]
    );
}

#[test]
fn greedy_layer_covers_each_face_once() {
    let mask: Vec<Option<u64>> = (0..30).map(|i| if i % 7 == 3 { None } else { Some((i % 3) as u64) }).collect();
    let quads = greedy_mesh_layer(6, 5, mask.clone());
    let mut count = vec![0; 30];
    for quad in &quads {
        for j in quad.y..quad.y + quad.height {
            for i in quad.x..quad.x + quad.width {
                count[j * 6 + i] += 1;
                assert_eq!(mask[j * 6 + i], Some(quad.meta));
            }
        }
    }
    for (c, m) in count.iter().zip(mask.iter()) {
        assert_eq!(*c, if m.is_some() { 1 } else { 0 });
    }
}

#[test]
fn greedy_empty_mask_gives_nothing() {
    assert!(greedy_mesh_layer(3, 3, vec![None; 9]).is_empty());
    assert!(greedy_mesh_layer(0, 0, Vec::new()).is_empty());
}

#[test]
fn greedy_cross_section_layers() {
    let layers = vec![vec![Some(5u64); 4], vec![None, Some(5), None, Some(5)]];
    let out = greedy_mesh_cross_section(2, 2, layers);
    assert_eq!(out.len(), 2);
    assert_eq!(out[0], vec![q(0, 0, 2, 2, 5)]);
    assert_eq!(out[1], vec![q(1, 0, 1, 2, 5)]);
}

#[test]
fn atlas_settings_and_growth() {
    assert_eq!(atlas_settings(4096, 4096), (33, 256, 32, 32));
    assert_eq!(atlas_settings(16, 8), (3, 5, 16, 8));
    assert_eq!(next_atlas_size(32, 32, 100, 40), Some((64, 40)));
    assert_eq!(next_atlas_size(100, 40, 100, 40), None);
    assert_eq!(next_atlas_size(i32::MAX - 1, 3, i32::MAX, 10), Some((i32::MAX, 6)));
}

#[test]
fn atlas_grows_until_rectangles_fit() {
    let mut atlas = new_mesh_atlas(128, 48);
    let mut todo: Vec<TodoRect> = Vec::new();
    let mut cur_size = (1u16, 1u16);
    let uv = ((0, 1, 0), (0, 0, 1));
    let rect = add_to_atlas(&mut atlas, &mut todo, (5, 6, 7), uv, (40, 3), (1, 0, 0), true, (128, 48), &mut cur_size)
        .unwrap();
    assert_eq!(rect.max_x - rect.min_x, 41);
    assert_eq!(rect.max_y - rect.min_y, 4);
    // The atlas doubled from 32 by 32 (the height capped at 48) until a
    // free part was wide enough, and the rectangle lies inside it.
    assert_eq!((atlas.size().width, atlas.size().height), (128, 48));
    assert!(rect.min_x >= 0 && rect.max_x <= 128 && rect.min_y >= 0 && rect.max_y <= 48);
    assert_eq!(todo.len(), 1);
    assert_eq!(todo[0].pos, (4, 6, 7));
    assert_eq!(todo[0].delta, (1, 0, 0));
    assert_eq!(cur_size, (rect.max_x as u16, rect.max_y as u16));
    let back = add_to_atlas(&mut atlas, &mut todo, (0, 0, 0), uv, (2, 2), (0, 0, -1), false, (128, 48), &mut cur_size)
        .unwrap();
    assert_eq!(back.max_x - back.min_x, 3);
    assert_eq!(todo[1].pos, (0, 0, 0));
    assert_eq!(todo[1].delta, (0, 0, 1));
    let too_big = add_to_atlas(&mut atlas, &mut todo, (0, 0, 0), uv, (200, 1), (0, 0, 1), true, (128, 48), &mut cur_size);
    assert_eq!(too_big, Err(AtlasFull));
    assert_eq!(todo.len(), 2);
}

// ----- site structures -----

fn v(x: i32, y: i32, z: i32) -> Vec3i {
    Vec3i { x, y, z }
}

fn boxed(min: Vec3i, max: Vec3i) -> Aabb {
    Aabb { min, max }
}

fn stone() -> Fill {
    Fill::Block(Block { kind: BlockKind(1), color: Rgb { r: 10, g: 20, b: 30 } })
}

#[test]
fn bounds_of_combinations() {
    let mut tree = Store::new();
    let a = tree.insert(Primitive::Aabb(boxed(v(0, 0, 0), v(4, 4, 4))));
    let b = tree.insert(Primitive::Aabb(boxed(v(2, -1, 1), v(6, 3, 3))));
    let e = tree.insert(Primitive::Empty);
    let and = tree.insert(Primitive::And(a, b));
    let or = tree.insert(Primitive::Or(a, b));
    let and_empty = tree.insert(Primitive::And(a, e));
    let only_empty = tree.insert(Primitive::Or(e, e));
    let fill = stone();
    assert_eq!(fill.get_bounds(&tree, and), boxed(v(2, 0, 1), v(4, 3, 3)));
    assert_eq!(fill.get_bounds(&tree, or), boxed(v(0, -1, 0), v(6, 4, 4)));
    assert_eq!(fill.get_bounds(&tree, and_empty), boxed(v(0, 0, 0), v(4, 4, 4)));
    assert_eq!(fill.get_bounds(&tree, only_empty), boxed(v(0, 0, 0), v(0, 0, 0)));
}

#[test]
fn containment_of_combinations() {
    let mut tree = Store::new();
    let a = tree.insert(Primitive::Aabb(boxed(v(0, 0, 0), v(4, 4, 4))));
    let b = tree.insert(Primitive::Aabb(boxed(v(2, 2, 2), v(6, 6, 6))));
    let p = tree.insert(Primitive::Pyramid { aabb: boxed(v(0, 0, 0), v(2, 2, 2)), inset: 1 });
    let xor = tree.insert(Primitive::Xor(a, b));
    let and = tree.insert(Primitive::And(a, p));
    let fill = stone();
    let no_pyramid = vec![false; tree.len()];
    assert!(fill.contains_at(&tree, xor, v(0, 0, 0), &no_pyramid));
    assert!(!fill.contains_at(&tree, xor, v(3, 3, 3), &no_pyramid));
    assert!(fill.contains_at(&tree, xor, v(5, 5, 5), &no_pyramid));
    assert!(!fill.contains_at(&tree, a, v(4, 0, 0), &no_pyramid));
    let mut hits = vec![false; tree.len()];
    hits[p] = true;
    assert!(fill.contains_at(&tree, and, v(1, 1, 1), &hits));
    assert!(!fill.contains_at(&tree, and, v(1, 1, 1), &no_pyramid));
    assert!(!fill.contains_at(&tree, and, v(3, 3, 3), &hits));
}

#[test]
fn sample_at_block_and_brick() {
    let mut tree = Store::new();
    let a = tree.insert(Primitive::Aabb(boxed(v(0, 0, 0), v(2, 2, 2))));
    let hits = vec![false];
    assert_eq!(
        stone().sample_at(&tree, a, v(1, 1, 1), &hits, 0),
        Some(Block { kind: BlockKind(1), color: Rgb { r: 10, g: 20, b: 30 } })
    );
    assert_eq!(stone().sample_at(&tree, a, v(2, 1, 1), &hits, 0), None);
    let brick = Fill::Brick(BlockKind(2), Rgb { r: 100, g: 100, b: 100 }, 8);
    assert_eq!(
        brick.sample_at(&tree, a, v(0, 0, 0), &hits, 13),
        Some(Block { kind: BlockKind(2), color: Rgb { r: 105, g: 105, b: 105 } })
    );
}

// ----- dungeon floors -----

fn floor() -> Floor {
    Floor::new(Vec2i { x: -9, y: -9 }, 32, 30, Vec2i { x: 3, y: 4 }, false, 2)
}

fn p(x: i32, y: i32) -> Vec2i {
    Vec2i { x, y }
}

fn room(area: Rect) -> Room {
    Room {
        seed: 0,
        has_loot: false,
        has_enemies: false,
        miniboss: false,
        boss: false,
        area,
        height: 10,
        pillars: None,
        difficulty: 2,
    }
}

#[test]
fn tiles_passable() {
    assert!(Tile::Room(0).is_passable());
    assert!(Tile::Tunnel.is_passable());
    assert!(Tile::UpStair(1).is_passable());
    assert!(Tile::DownStair(1).is_passable());
    assert!(!Tile::Solid.is_passable());
}

#[test]
fn create_room_marks_its_tiles() {
    let mut f = floor();
    let id = f.create_room(room(Rect { x: 16, y: 16, w: 3, h: 3 }));
    assert_eq!(id, 0);
    assert_eq!(f.get(p(16, 16)), Some(Tile::Room(0)));
    assert_eq!(f.get(p(17, 17)), Some(Tile::Room(0)));
    assert_eq!(f.get(p(15, 16)), Some(Tile::Solid));
    assert_eq!(f.get(p(18, 18)), None);
    let id2 = f.create_room(room(Rect { x: 0, y: 0, w: 2, h: 1 }));
    assert_eq!(id2, 1);
    assert_eq!(f.get(p(1, 0)), Some(Tile::Room(1)));
    assert_eq!(f.get(p(1, 1)), Some(Tile::Solid));
}

#[test]
fn rooms_keep_a_margin() {
    let mut f = floor();
    f.create_room(room(Rect { x: 2, y: 2, w: 3, h: 3 }));
    assert_eq!(f.try_place_room(p(5, 2), p(3, 3)), None);
    assert_eq!(f.try_place_room(p(6, 2), p(3, 3)), Some(Rect { x: 6, y: 2, w: 3, h: 3 }));
    assert_eq!(f.try_place_room(p(2, 6), p(4, 4)), Some(Rect { x: 2, y: 6, w: 4, h: 4 }));
}

#[test]
fn tunnels_only_replace_rock() {
    let mut f = floor();
    f.create_room(room(Rect { x: 1, y: 1, w: 1, h: 1 }));
    f.tunnel_path(&vec![p(0, 1), p(1, 1), p(2, 1), p(40, 40)]);
    assert_eq!(f.get(p(0, 1)), Some(Tile::Tunnel));
    assert_eq!(f.get(p(1, 1)), Some(Tile::Room(0)));
    assert_eq!(f.get(p(2, 1)), Some(Tile::Tunnel));
    assert_eq!(f.get(p(3, 1)), Some(Tile::Solid));
}

#[test]
fn nearest_wall_in_open_floor() {
    let mut f = floor();
    f.create_room(room(Rect { x: 0, y: 0, w: 3, h: 3 }));
    // In tile (1, 1), every neighbour is a room tile: no wall.
    assert_eq!(f.nearest_wall(p(20, 20)), None);
    // In tile (2, 2), the tiles at x = 3 or y = 3 are rock; the nearest
    // points lie straight along +y and +x, and +y comes first.
    assert_eq!(f.nearest_wall(p(37, 37)), Some(p(37, 39)));
    assert_eq!(f.nearest_wall(p(30, 37)), Some(p(30, 39)));
}

#[test]
fn relative_orientation() {
    assert_eq!(Floor::relative_ori(p(0, 5), p(0, 0)), 4);
    assert_eq!(Floor::relative_ori(p(0, -5), p(0, 0)), 8);
    assert_eq!(Floor::relative_ori(p(5, 1), p(0, 0)), 2);
    assert_eq!(Floor::relative_ori(p(-5, 5), p(0, 0)), 6);
}

#[test]
fn floor_depth_and_counts() {
    assert_eq!(floor().total_depth(), 62);
    assert_eq!(floor_count(0), 3);
    assert_eq!(floor_count(5), 5);
    assert!(is_final_level(4, 5));
    assert!(!is_final_level(3, 5));
    assert_eq!(boss_room_size(0), (2, 15));
    assert_eq!(boss_room_size(5), (4, 30));
}

#[test]
fn stair_tile_is_farthest_of_first_eight() {
    let stair = p(0, 0);
    let cands = vec![p(0, 0), p(1, 1), p(-3, 2), p(5, 0), p(0, 0), p(2, 3), p(-5, 0), p(1, 0), p(0, 2), p(1, 2), p(9, 9)];
    // The first eight others end with p(1, 2); p(-3, 2), p(5, 0), p(2, 3)
    // and p(-5, 0) are all five away; the last of them wins.
    assert_eq!(farthest_stair_tile(stair, &cands), Some(p(-5, 0)));
    assert_eq!(farthest_stair_tile(stair, &vec![p(0, 0)]), None);
}

#[test]
fn random_rooms_keep_clear() {
    let mut rng = StdRng::seed_from_u64(7);
    let mut f = floor();
    let mut areas = Vec::new();
    for _ in 0..6 {
        if let Some(area) = f.random_room_area(&mut rng) {
            assert!(3 <= area.w && area.w < 6 && 3 <= area.h && area.h < 6);
            assert!(0 <= area.x && area.x + area.w <= 18 && 0 <= area.y && area.y + area.h <= 18);
            for other in &areas {
                let o: &Rect = other;
                let apart = o.x + o.w < area.x || area.x + area.w < o.x || o.y + o.h < area.y || area.y + area.h < o.y;
                assert!(apart);
            }
            f.create_room(room(area));
            areas.push(area);
        }
    }
    assert!(areas.len() >= 2);
    assert!(areas.iter().any(|a| *a != areas[0]));
}

#[test]
fn random_difficulty_in_range() {
    let mut rng = StdRng::seed_from_u64(3);
    let draws: Vec<u32> = (0..50).map(|_| random_difficulty(&mut rng)).collect();
    assert!(draws.iter().all(|d| *d < 6));
    assert!(draws.iter().any(|d| *d != draws[0]));
}

#[test]
fn pillars_every_few_tiles() {
    assert!(tile_is_pillar(p(4, 8), Some(4)));
    assert!(tile_is_pillar(p(-4, 0), Some(2)));
    assert!(!tile_is_pillar(p(4, 6), Some(4)));
    assert!(!tile_is_pillar(p(0, 0), None));
}

#[test]
fn enemy_loot_tables() {
    assert_eq!(enemy_loot_roll_range(0), Some(4));
    assert_eq!(enemy_loot_roll_range(3), Some(10));
    assert_eq!(enemy_loot_roll_range(9), None);
    assert_eq!(enemy_loot_table(0, 0), "common.loot_tables.loot_table_humanoids");
    assert_eq!(enemy_loot_table(1, 1), "common.loot_tables.loot_table_armor_light");
    assert_eq!(enemy_loot_table(2, 3), "common.loot_tables.loot_table_weapon_rare");
    assert_eq!(enemy_loot_table(3, 9), "common.loot_tables.loot_table_cultists");
    assert_eq!(enemy_loot_table(7, 0), "common.loot_tables.loot_table_armor_misc");
}

// ----- server messages -----

#[test]
fn server_messages_by_client_state() {
    let in_game = Some(PresenceKind::Character(7));
    assert!(ServerMsgKind::Info.verify(ClientType::Game, false, None));
    assert!(!ServerMsgKind::Info.verify(ClientType::Game, true, None));
    assert!(ServerMsgKind::Ping.verify(ClientType::ChatOnly, true, in_game));
    let chat = ServerMsgKind::General(ServerGeneralKind::ChatMsg);
    assert!(chat.verify(ClientType::ChatOnly, true, None));
    assert!(!chat.verify(ClientType::Game, false, None));
    let list = ServerMsgKind::General(ServerGeneralKind::CharacterListUpdate);
    assert!(list.verify(ClientType::Bot { privileged: false }, true, None));
    assert!(!list.verify(ClientType::ChatOnly, true, None));
    assert!(!list.verify(ClientType::Game, true, in_game));
    let success = ServerMsgKind::General(ServerGeneralKind::CharacterSuccess);
    assert!(success.verify(ClientType::Game, true, None));
    assert!(!success.verify(ClientType::Bot { privileged: true }, true, None));
    let terrain = ServerMsgKind::General(ServerGeneralKind::TerrainChunkUpdate);
    assert!(terrain.verify(ClientType::Game, true, Some(PresenceKind::Spectator)));
    assert!(!terrain.verify(ClientType::Game, true, None));
}

#[test]
fn chunk_requests() {
    assert_eq!(chunk_request_outcome(false, true, true), ChunkRequestOutcome::DroppedNotInGame);
    assert_eq!(chunk_request_outcome(true, false, true), ChunkRequestOutcome::DroppedOutOfView);
    assert_eq!(chunk_request_outcome(true, true, true), ChunkRequestOutcome::ServedFromMemory);
    assert_eq!(chunk_request_outcome(true, true, false), ChunkRequestOutcome::GenerationTriggered);
}

// ----- trade pricing -----

#[test]
fn price_lists_by_path() {
    assert_eq!(price_list_by_path("common.items.crafting_ing.leather"), PriceList::Ingredients);
    assert_eq!(price_list_by_path("common.items.armor.cloth.chest"), PriceList::Armor);
    assert_eq!(price_list_by_path("common.items.weapons.sword.steel-8"), PriceList::Tools);
    assert_eq!(price_list_by_path("common.items.consumable.potion_big"), PriceList::Potions);
    assert_eq!(price_list_by_path("common.items.food.apple"), PriceList::Food);
    assert_eq!(price_list_by_path("common.items.ore.velorite"), PriceList::Ingredients);
    assert_eq!(price_list_by_path("common.items.flowers.blue"), PriceList::Ingredients);
    assert_eq!(price_list_by_path("common.items.glider.glider_basic"), PriceList::Other);
    assert_eq!(price_list_by_path("common.items.armor"), PriceList::Other);
    assert_eq!(price_list_by_path(""), PriceList::Other);
    assert_eq!(price_list_for_good(Good::Armor), PriceList::Armor);
    assert_eq!(price_list_for_good(Good::Ingredients), PriceList::Ingredients);
}

// ----- combat -----

#[test]
fn weapons_in_hands() {
    let mut inv = Inventory::new_empty();
    let sword = Item::new_from_item_def(ItemDef {
        item_definition_id: "sword".to_string(),
        kind: ItemKind::Tool(ToolKind::Sword),
        slots: 0,
        tags: Vec::new(),
    });
    let shield_armor = Item::new_from_item_def(ItemDef {
        item_definition_id: "plate".to_string(),
        kind: ItemKind::Armor(ArmorKind::Chest),
        slots: 0,
        tags: Vec::new(),
    });
    assert_eq!(get_weapons(&inv), (None, None));
    inv.replace_loadout_item(EquipSlot::Mainhand, Some(sword));
    inv.replace_loadout_item(EquipSlot::Offhand, Some(shield_armor));
    assert_eq!(get_weapons(&inv), (Some(ToolKind::Sword), None));
    let (item, kind) = equipped_item_and_tool(&inv, EquipSlot::Mainhand).unwrap();
    assert_eq!(item.item_definition_id(), "sword");
    assert_eq!(kind, ToolKind::Sword);
    assert!(equipped_item_and_tool(&inv, EquipSlot::Offhand).is_none());
}

// ----- persistence -----

fn rec(id: i64, parent: i64) -> ItemRecord {
    ItemRecord {
        item_id: id,
        parent_container_item_id: parent,
        item_definition_id: "x".to_string(),
        stack_size: 1,
        position: "0".to_string(),
    }
}

#[test]
fn character_limit() {
    assert_eq!(check_character_limit(Some(7)), Ok(()));
    assert_eq!(check_character_limit(Some(8)), Err(Error::CharacterLimitReached));
    assert_eq!(check_character_limit(None), Ok(()));
}

#[test]
fn new_character_records() {
    let r = pseudo_containers(42, 43, 44);
    assert_eq!(r.len(), 3);
    assert_eq!(r[0].item_id, 42);
    assert_eq!(r[0].parent_container_item_id, 1);
    assert_eq!(r[0].position, "42");
    assert_eq!(r[0].item_definition_id, "veloren.core.pseudo_containers.character");
    assert_eq!(r[1].parent_container_item_id, 42);
    assert_eq!(r[1].position, "inventory");
    assert_eq!(r[2].item_id, 44);
    assert_eq!(r[2].position, "loadout");
}

#[test]
fn items_walked_level_by_level() {
    let mut walk = ItemsBfs::new(1);
    let mut seen = Vec::new();
    while let Some(id) = walk.next_container() {
        seen.push(id);
        let frontier = match id {
            1 => vec![rec(2, 1), rec(3, 1)],
            2 => vec![rec(4, 2)],
            _ => Vec::new(),
        };
        walk.add_frontier(frontier);
    }
    assert_eq!(seen, vec![1, 2, 3, 4]);
    let ids: Vec<i64> = walk.finish().iter().map(|r| r.item_id).collect();
    assert_eq!(ids, vec![2, 3, 4]);
}

// ----- character states -----

fn roll(stage: StageSection, timer_ns: u128) -> RollData {
    RollData {
        static_data: RollStaticData { buildup_ns: 100, movement_ns: 200, recover_ns: 50, immune_melee: true },
        timer_ns,
        stage_section: stage,
        was_wielded: false,
        was_sneak: true,
        was_combo: None,
    }
}

#[test]
fn roll_stages() {
    assert_eq!(roll(StageSection::Buildup, 10).behavior(5, false), RollNext::Roll(roll(StageSection::Buildup, 15)));
    assert_eq!(roll(StageSection::Buildup, 100).behavior(5, false), RollNext::Roll(roll(StageSection::Movement, 0)));
    assert_eq!(roll(StageSection::Movement, 200).behavior(5, false), RollNext::Roll(roll(StageSection::Recover, 0)));
    assert_eq!(roll(StageSection::Recover, 50).behavior(5, false), RollNext::Sneak);
    let mut combo = roll(StageSection::Recover, 60);
    combo.was_combo = Some(ComboResume { input: 3, stage: 2 });
    assert_eq!(combo.behavior(5, true), RollNext::Combo { input: 3, stage: 2 });
    assert_eq!(combo.behavior(5, false), RollNext::Wielding);
    assert_eq!(roll(StageSection::Swing, 0).behavior(5, false), RollNext::Idle);
    assert_eq!(roll(StageSection::Buildup, 10).behavior(u128::MAX, false), RollNext::Roll(roll(StageSection::Buildup, 0)));
}

#[test]
fn climbing() {
    assert_eq!(climb_energy_use(Climb::Up), 5);
    assert_eq!(climb_energy_use(Climb::Down), 1);
    assert_eq!(climb_continues(true, Some(Climb::Hold), false), Some(Climb::Hold));
    assert_eq!(climb_continues(true, Some(Climb::Up), true), None);
    assert_eq!(climb_continues(false, Some(Climb::Up), false), None);
}

// ----- server console -----

#[test]
fn console_keys() {
    let mut input = Vec::new();
    assert_eq!(handle_key(&mut input, KeyInput::Char { c: 'k', ctrl: false }), KeyAction::Nothing);
    assert_eq!(handle_key(&mut input, KeyInput::Char { c: 'c', ctrl: false }), KeyAction::Nothing);
    assert_eq!(handle_key(&mut input, KeyInput::Char { c: 'x', ctrl: true }), KeyAction::Nothing);
    assert_eq!(input, vec!['k', 'c', 'x']);
    assert_eq!(handle_key(&mut input, KeyInput::Backspace), KeyAction::Nothing);
    assert_eq!(handle_key(&mut input, KeyInput::Enter), KeyAction::Command(vec!['k', 'c']));
    assert!(input.is_empty());
    assert_eq!(handle_key(&mut input, KeyInput::Backspace), KeyAction::Nothing);
    assert_eq!(handle_key(&mut input, KeyInput::Char { c: 'c', ctrl: true }), KeyAction::Quit);
    assert!(input.is_empty());
}

#[test]
fn console_layout() {
    let size = TermRect { x: 0, y: 0, width: 80, height: 24 };
    assert_eq!(
        layout(size),
        (TermRect { x: 0, y: 0, width: 80, height: 21 }, TermRect { x: 0, y: 21, width: 80, height: 3 })
    );
    let small = TermRect { x: 0, y: 0, width: 80, height: 6 };
    assert_eq!(layout(small), (small, TermRect { x: 0, y: 0, width: 0, height: 0 }));
    assert_eq!(log_scroll(30, 21), 9);
    assert_eq!(log_scroll(3, 21), 0);
}

// ----- attack targeting -----

#[test]
fn attack_parts_reach_their_group() {
    assert!(reaches_target(None, InGroup, false));
    assert!(reaches_target(None, OutOfGroup, true));
    assert!(reaches_target(Some(InGroup), InGroup, true));
    assert!(!reaches_target(Some(InGroup), OutOfGroup, false));
    assert!(reaches_target(Some(OutOfGroup), OutOfGroup, false));
    assert!(!reaches_target(Some(OutOfGroup), OutOfGroup, true));
}

#[test]
fn dodging_enemy_only_takes_untargeted_parts() {
    let parts = vec![Some(OutOfGroup), None, Some(InGroup), Some(OutOfGroup), None];
    assert_eq!(reaching_parts(&parts, OutOfGroup, false), vec![0, 1, 3, 4]);
    assert_eq!(reaching_parts(&parts, OutOfGroup, true), vec![1, 4]);
    assert_eq!(reaching_parts(&parts, InGroup, true), vec![1, 2, 4]);
    assert_eq!(reaching_parts(&Vec::new(), InGroup, false), Vec::<usize>::new());
}

// ----- dungeon spawns -----

#[test]
fn enemies_by_difficulty() {
    assert_eq!(enemy_spawn(0, 3), Spawn::Gnarling);
    assert_eq!(enemy_spawn(4, 0), Spawn::Myrmidon);
    assert_eq!(enemy_kind_roll_range(5), Some(6));
    assert_eq!(enemy_kind_roll_range(2), None);
    assert_eq!(enemy_spawn(5, 0), Spawn::CultistWarlock);
    assert_eq!(enemy_spawn(5, 1), Spawn::PossessedTurret);
    assert_eq!(enemy_spawn(5, 5), Spawn::CultistWarlord);
    assert_eq!(enemy_spawn(9, 0), Spawn::Humanoid);
    assert_eq!(Spawn::CultistWarlord.name(), Some("Cultist Warlord"));
    assert_eq!(Spawn::Sheep.name(), None);
}

#[test]
fn enemy_weapons() {
    assert_eq!(main_tool_roll_range(Spawn::Sahagin), Some(5));
    assert_eq!(main_tool_roll_range(Spawn::PossessedTurret), None);
    assert_eq!(main_tool(Spawn::Adlet, 0), Some("common.items.npc_weapons.biped_small.adlet.adlet_bow"));
    assert_eq!(main_tool(Spawn::Haniwa, 1), Some("common.items.npc_weapons.biped_small.haniwa.gnoll_staff"));
    assert_eq!(main_tool(Spawn::Gnarling, 4), Some("common.items.npc_weapons.biped_small.gnarling.wooden_spear"));
    assert_eq!(main_tool(Spawn::CultistWarlord, 2), Some("common.items.weapons.sword.cultist"));
    assert_eq!(main_tool(Spawn::CultistWarlord, 3), Some("common.items.weapons.hammer.cultist_purp_2h-0"));
    assert_eq!(main_tool(Spawn::CultistWarlock, 0), Some("common.items.weapons.staff.cultist_staff"));
    assert_eq!(main_tool(Spawn::PossessedTurret, 0), None);
    assert_eq!(main_tool(Spawn::Humanoid, 0), Some("common.items.weapons.bow.bone-1"));
}

#[test]
fn bosses_and_minibosses() {
    assert_eq!(boss(0), Spawn::Harvester);
    assert_eq!(boss(5), Spawn::Mindflayer);
    assert_eq!(boss(6), Spawn::Sheep);
    assert_eq!(boss(2).name(), Some("Tidal Warrior"));
    assert_eq!(boss_loot_table(1), "common.loot_tables.loot_table_weapon_uncommon");
    assert_eq!(boss_loot_table(5), "common.loot_tables.loot_table_mindflayer");
    assert_eq!(minibosses(1), vec![Spawn::Bonerattler; 3]);
    assert_eq!(minibosses(2), vec![Spawn::Hakulaq; 6]);
    assert_eq!(minibosses(3), vec![Spawn::AnimalTrainer, Spawn::TamedDarkhound, Spawn::TamedDarkhound]);
    assert_eq!(minibosses(7), vec![Spawn::Sheep]);
    assert_eq!(miniboss_loot_table(2), "common.loot_tables.loot_table_animal_parts");
    assert_eq!(miniboss_loot_table(4), "common.loot_tables.loot_table_weapon_rare");
}

#[test]
fn guardian_steps_off_a_pillar() {
    let p = |x, y| Vec2i { x, y };
    assert_eq!(guardian_tile(p(4, 8), Some(4)), p(5, 9));
    assert_eq!(guardian_tile(p(4, 6), Some(4)), p(4, 6));
    assert_eq!(guardian_tile(p(4, 8), None), p(4, 8));
    // The middle column of the guardian's tile only.
    assert!(guardian_appears_at(p(4, 6), Some(4), p(4, 6), p(58, 84)));
    assert!(!guardian_appears_at(p(4, 6), Some(4), p(4, 6), p(57, 84)));
    assert!(!guardian_appears_at(p(4, 6), Some(4), p(4, 7), p(58, 84)));
    assert!(guardian_appears_at(p(-1, 0), None, p(-1, 0), p(-7, 6)));
}

// ----- dungeon columns -----

#[test]
fn column_position_on_the_floor() {
    let p = |x, y| Vec2i { x, y };
    // Tiles start at tile (-9, -9), that is at block (-117, -117).
    assert_eq!(
        column_pos(p(0, 0), p(-9, -9)),
        ColumnPos { rpos: p(117, 117), tile_pos: p(9, 9), rtile_pos: p(-6, -6) }
    );
    assert_eq!(
        column_pos(p(-120, 5), p(-9, -9)),
        ColumnPos { rpos: p(-3, 122), tile_pos: p(-1, 9), rtile_pos: p(4, -1) }
    );
}

#[test]
fn wall_lights_and_pillar_lights() {
    let p = |x, y| Vec2i { x, y };
    assert!(light_spot(p(0, 3)));
    assert!(light_spot(p(-7, 1)));
    assert!(!light_spot(p(0, 7)));
    assert!(!light_spot(p(2, 3)));
    assert_eq!(pillar_light(p(4, 0), 1), Some(2));
    assert_eq!(pillar_light(p(-4, 0), 1), Some(6));
    assert_eq!(pillar_light(p(0, 4), 1), Some(4));
    assert_eq!(pillar_light(p(0, -4), 1), Some(8));
    assert_eq!(pillar_light(p(4, 0), 2), None);
    assert_eq!(pillar_light(p(2, 2), 1), None);
}

#[test]
fn stair_rooms_of_a_middle_floor() {
    let mut rng = StdRng::seed_from_u64(3);
    // Difficulty 2 has three floors; level 1 is not the last.
    let (f, down) = Floor::with_stair_rooms(&mut rng, p(-2, 3), p(4, -5), 1, 2);
    assert_eq!(down, p(4, -5));
    assert_eq!(f.tile_offset, p(-9, -9));
    assert_eq!((f.solid_depth, f.hollow_depth, f.final_level), (32, 30, false));
    assert_eq!(f.stair_tile, p(13, 4));
    assert_eq!(f.rooms.len(), 2);
    assert_eq!(f.rooms[0].area, Rect { x: 6, y: 11, w: 3, h: 3 });
    assert_eq!(f.rooms[1].area, Rect { x: 12, y: 3, w: 3, h: 3 });
    assert_eq!(f.rooms[0].height, STAIR_ROOM_HEIGHT);
    assert!(!f.rooms[1].boss && !f.rooms[1].has_enemies);
    assert_eq!(f.get(p(7, 12)), Some(Tile::UpStair(0)));
    assert_eq!(f.get(p(6, 11)), Some(Tile::Room(0)));
    assert_eq!(f.get(p(13, 4)), Some(Tile::DownStair(1)));
    assert_eq!(f.get(p(14, 5)), Some(Tile::Room(1)));
    assert_eq!(f.get(p(0, 0)), Some(Tile::Solid));
}

#[test]
fn stair_rooms_of_the_last_floor() {
    let mut rng = StdRng::seed_from_u64(3);
    let (f, down) = Floor::with_stair_rooms(&mut rng, p(1, 1), p(4, -5), 0, 0);
    // Difficulty 0 has three floors: level 0 is not the last.
    assert!(!f.final_level);
    assert_eq!(down, p(4, -5));
    assert_eq!(f.solid_depth, 80);
    let (f, down) = Floor::with_stair_rooms(&mut rng, p(1, 1), p(4, -5), 2, 0);
    assert!(f.final_level);
    assert_eq!(down, p(0, 0));
    let boss = f.rooms[1];
    assert!(boss.boss && boss.has_enemies && !boss.has_loot);
    assert_eq!(boss.area, Rect { x: 4, y: 4, w: 5, h: 5 });
    assert_eq!((boss.height, boss.pillars), (15, Some(2)));
    assert_eq!(f.get(p(8, 8)), Some(Tile::Room(1)));
    assert_eq!(f.get(p(9, 9)), Some(Tile::Room(0)));
    assert_eq!(f.get(p(10, 10)), Some(Tile::UpStair(0)));
}

#[test]
fn generated_rooms_keep_clear_of_each_other() {
    let mut rng = StdRng::seed_from_u64(11);
    let mut dynamic = StdRng::seed_from_u64(12);
    let (mut f, _) = Floor::with_stair_rooms(&mut rng, p(0, 0), p(5, 5), 0, 3);
    f.create_rooms(&mut rng, &mut dynamic, 7);
    assert!(f.rooms.len() > 2 && f.rooms.len() <= 9);
    for (i, r) in f.rooms.iter().enumerate().skip(2) {
        let a = r.area;
        assert!(3 <= a.w && a.w < 6 && 3 <= a.h && a.h < 6);
        assert!(r.has_loot && !r.boss && r.difficulty == 3);
        if r.miniboss {
            assert!(!r.has_enemies && 15 <= r.height && r.height < 20 && r.pillars == Some(4));
        } else {
            assert!(r.has_enemies && 10 <= r.height && r.height < 15);
        }
        for o in &f.rooms[..i] {
            let o = o.area;
            let apart = o.x + o.w < a.x || a.x + a.w < o.x || o.y + o.h < a.y || a.y + a.h < o.y;
            assert!(apart);
        }
        assert_eq!(f.get(p(a.x, a.y)), Some(Tile::Room(i)));
    }
}

#[test]
fn floors_stack_below_the_entrance() {
    let top = Floor::new(p(-9, -9), 80, 30, p(0, 0), false, 1);
    let mid = Floor::new(p(-9, -9), 32, 30, p(0, 0), false, 1);
    let low = Floor::new(p(-9, -9), 32, 30, p(0, 0), true, 1);
    // 100 - 2 = 98 below the entrance; then 110, 62 and 62 deep.
    assert_eq!(floor_bases(100, &vec![top, mid, low]), vec![-12, -74, -136]);
    assert_eq!(floor_bases(100, &Vec::new()), Vec::<i32>::new());
}

#[test]
fn dungeon_surroundings() {
    assert!(!trees_allowed(p(64, 0), p(0, 0)));
    assert!(trees_allowed(p(64, 1), p(0, 0)));
    assert!(trees_allowed(p(-100, -100), p(0, 0)));
    assert_eq!(name_suffix(0), "Dungeon");
    assert_eq!(name_suffix(3), "Catacombs");
    assert_eq!(name_suffix(4), "Pit");
    assert!(waypoint_in_chunk(p(0, 0), p(32, 32)));
    assert!(waypoint_in_chunk(p(-23, 9), p(32, 32)));
    assert!(!waypoint_in_chunk(p(10, 0), p(32, 32)));
    assert!(!waypoint_in_chunk(p(-24, 0), p(32, 32)));
}

#[test]
fn dungeon_parts() {
    let floors = vec![
        Floor::new(p(-9, -9), 80, 30, p(0, 0), false, 0),
        Floor::new(p(-9, -9), 32, 30, p(0, 0), false, 0),
        Floor::new(p(-9, -9), 32, 30, p(0, 0), true, 0),
    ];
    let d = Dungeon::new("Gloom Pit".to_string(), p(100, -40), 50, 17, floors, 0);
    assert_eq!(d.name(), "Gloom Pit");
    assert_eq!(d.get_origin(), p(100, -40));
    assert_eq!(d.difficulty(), 0);
    assert_eq!(d.floors().len(), 3);
    assert_eq!(d.entrance_index(5), 2);
    assert!(!d.trees_allowed_at(p(140, 0)));
    assert!(d.trees_allowed_at(p(200, -40)));
    assert_eq!(d.floor_bases(), vec![-62, -124, -186]);
}

#[test]
fn populating_the_boss_room() {
    let mut rng = StdRng::seed_from_u64(5);
    // The last floor of a dungeon of difficulty 0: the boss room covers tiles
    // 4 to 8 each way, pillars every 2 tiles; its centre tile (6, 6) is a
    // pillar, so the boss stands on tile (7, 7), columns -26 to -14.
    let (f, _) = Floor::with_stair_rooms(&mut rng, p(1, 1), p(4, -5), 2, 0);
    assert!(f.is_supplement_ready());
    let plan = f.supplement_plan(p(-26, -26), p(-13, -13));
    assert_eq!(plan.len(), 13 * 13 + 1);
    assert!(plan.iter().all(|e| e.alignment == Alignment::Enemy));
    assert_eq!(plan[0], PlannedEvent { column: p(-26, -26), alignment: Alignment::Enemy, event: ColumnEvent::EnemyRoll { room: 1, pillar: false } });
    assert_eq!(plan[84], PlannedEvent { column: p(-20, -20), alignment: Alignment::Enemy, event: ColumnEvent::EnemyRoll { room: 1, pillar: false } });
    assert_eq!(plan[85], PlannedEvent { column: p(-20, -20), alignment: Alignment::Enemy, event: ColumnEvent::Boss { room: 1 } });
    // A pillar tile of the boss room.
    let pillar = f.supplement_plan(p(-39, -39), p(-38, -38));
    assert_eq!(pillar, vec![PlannedEvent { column: p(-39, -39), alignment: Alignment::Enemy, event: ColumnEvent::EnemyRoll { room: 1, pillar: true } }]);
    // The stair room holds no enemies.
    assert!(f.supplement_plan(p(0, 0), p(13, 13)).is_empty());
    // An empty area.
    assert!(f.supplement_plan(p(5, 5), p(5, 9)).is_empty());
}

#[test]
fn populating_a_dungeon_chunk() {
    let mut rng = StdRng::seed_from_u64(5);
    let (last, _) = Floor::with_stair_rooms(&mut rng, p(1, 1), p(4, -5), 2, 0);
    // A last floor of difficulty 0: 32 blocks of rock and 30 of hollow.
    let d = Dungeon::new("Crypt".to_string(), p(100, 100), 40, 3, vec![last], 0);
    let (waypoint, plans) = d.supplement_plan(p(74, 74), p(13, 13));
    assert!(!waypoint);
    assert_eq!(plans.len(), 1);
    assert_eq!(plans[0].base, 40 - 2 - 62);
    assert_eq!(plans[0].events.len(), 13 * 13 + 1);
    assert_eq!(plans[0].events[85], PlannedEvent { column: p(-20, -20), alignment: Alignment::Enemy, event: ColumnEvent::Boss { room: 1 } });
    let (waypoint, plans) = d.supplement_plan(p(100, 100), p(32, 32));
    assert!(waypoint);
    assert!(plans[0].events.is_empty());
}

#[test]
fn requirements_stop_at_the_first_unmet() {
    let reqs = vec![
        RequirementCheck::Energy { sufficient: Some(true), cost: -20 },
        RequirementCheck::Combo { required: 3 },
        RequirementCheck::AnyDamage,
        RequirementCheck::Combo { required: 1 },
    ];
    // Everything met: both costs are paid, in order.
    assert_eq!(
        check_requirements(&reqs, true, Some(5)),
        (true, vec![Payment::Energy(-20), Payment::Combo(-3), Payment::Combo(-1)])
    );
    // No damage dealt: what was met before is still paid.
    assert_eq!(check_requirements(&reqs, false, Some(5)), (false, vec![Payment::Energy(-20), Payment::Combo(-3)]));
    // Too small a combo: only the energy is paid.
    assert_eq!(check_requirements(&reqs, true, Some(2)), (false, vec![Payment::Energy(-20)]));
    // No energy to draw on: nothing is paid.
    let no_energy = vec![RequirementCheck::Energy { sufficient: None, cost: -5 }, RequirementCheck::AnyDamage];
    assert_eq!(check_requirements(&no_energy, true, None), (false, vec![]));
    assert_eq!(check_requirements(&Vec::new(), false, None), (true, vec![]));
    // A huge requirement wraps as a signed number.
    assert_eq!(
        check_requirements(&vec![RequirementCheck::Combo { required: u32::MAX }], true, Some(u32::MAX)),
        (true, vec![Payment::Combo(1)])
    );
}

#[test]
fn greedy_mesh_atlas_state() {
    let mut mesh = GreedyMesh::new((128, 48));
    assert_eq!(mesh.max_size(), (128, 48));
    assert_eq!(mesh.col_lights_size(), (1, 1));
    let mut todo: Vec<TodoRect> = Vec::new();
    let uv = ((0, 1, 0), (0, 0, 1));
    let rect = mesh.add_rect(&mut todo, (1, 2, 3), uv, (4, 2), (0, 0, 1), false).unwrap();
    assert_eq!((rect.max_x - rect.min_x, rect.max_y - rect.min_y), (5, 3));
    assert_eq!(mesh.col_lights_size(), (rect.max_x as u16, rect.max_y as u16));
    assert_eq!(todo.len(), 1);
    assert_eq!(mesh.add_rect(&mut todo, (0, 0, 0), uv, (300, 1), (0, 0, 1), true), Err(AtlasFull));
    assert_eq!(mesh.col_lights_size(), (rect.max_x as u16, rect.max_y as u16));
}

#[test]
fn an_empty_floor_always_takes_a_room() {
    for seed in 0..20 {
        let mut rng = StdRng::seed_from_u64(seed);
        let mut dynamic = StdRng::seed_from_u64(seed + 100);
        assert!(floor().random_room_area(&mut rng).is_some());
        let mut f = floor();
        f.create_rooms(&mut rng, &mut dynamic, 1);
        assert_eq!(f.rooms.len(), 1);
    }
}

#[test]
fn atlas_rectangles_never_overlap() {
    let mut mesh = GreedyMesh::new((256, 256));
    let mut todo: Vec<TodoRect> = Vec::new();
    let uv = ((0, 1, 0), (0, 0, 1));
    let mut placed = Vec::new();
    for i in 0..40usize {
        let dim = (1 + i % 7, 1 + (i * 3) % 5);
        let rect = mesh.add_rect(&mut todo, (0, 0, 0), uv, dim, (0, 0, 1), false).unwrap();
        for other in &placed {
            let o: &veloren_logic::mesh::atlas::AtlasRect = other;
            let apart = o.max_x <= rect.min_x || rect.max_x <= o.min_x || o.max_y <= rect.min_y || rect.max_y <= o.min_y;
            assert!(apart);
        }
        placed.push(rect);
    }
}

#[test]
fn atlas_grows_by_doubling_only_as_far_as_needed() {
    let mut atlas = new_mesh_atlas(256, 256);
    assert_eq!((atlas.size().width, atlas.size().height), (32, 32));
    let mut todo: Vec<TodoRect> = Vec::new();
    let mut cur = (1u16, 1u16);
    let rect = add_to_atlas(&mut atlas, &mut todo, (0, 0, 0), ((0, 1, 0), (0, 0, 1)), (40, 5), (0, 0, 1), false, (256, 256), &mut cur)
        .unwrap();
    assert_eq!(rect.max_x - rect.min_x, 41);
    assert_eq!((atlas.size().width, atlas.size().height), (64, 64));
    let rect = add_to_atlas(&mut atlas, &mut todo, (0, 0, 0), ((0, 1, 0), (0, 0, 1)), (100, 2), (0, 0, 1), false, (256, 256), &mut cur)
        .unwrap();
    assert_eq!(rect.max_x - rect.min_x, 101);
    assert_eq!((atlas.size().width, atlas.size().height), (128, 128));
}

#[test]
fn enemy_rolls_spawn_only_on_zero_off_pillars() {
    assert!(enemy_roll_spawns(0, false));
    assert!(!enemy_roll_spawns(0, true));
    assert!(!enemy_roll_spawns(3, false));
    assert!(!enemy_roll_spawns(1, true));
}

#[test]
fn guardian_level_is_five_times_the_roll() {
    assert_eq!(guardian_level(0), 0);
    assert_eq!(guardian_level(7), 35);
    assert_eq!(guardian_level(u16::MAX / 5), 65535);
}

#[test]
fn route_rules_on_a_floor() {
    let mut floor = Floor::new(Vec2i { x: -9, y: -9 }, 32, 30, Vec2i { x: 3, y: 4 }, false, 2);
    floor.set(Vec2i { x: 1, y: 0 }, Tile::Tunnel);
    floor.set(Vec2i { x: 2, y: 0 }, Tile::DownStair(0));
    assert_eq!(floor.route_step_cost(Vec2i { x: 0, y: 0 }), 25);
    assert_eq!(floor.route_step_cost(Vec2i { x: 1, y: 0 }), 1);
    assert_eq!(floor.route_step_cost(Vec2i { x: 2, y: 0 }), 0);
    assert_eq!(floor.route_step_cost(Vec2i { x: -1, y: 0 }), 100000);
    assert_eq!(Floor::route_neighbors(Vec2i { x: 0, y: 0 }), vec![Vec2i { x: 0, y: 1 }, Vec2i { x: 1, y: 0 }]);
    assert_eq!(
        Floor::route_neighbors(Vec2i { x: 5, y: 5 }),
        vec![Vec2i { x: 5, y: 6 }, Vec2i { x: 6, y: 5 }, Vec2i { x: 5, y: 4 }, Vec2i { x: 4, y: 5 }]
    );
    assert_eq!(Floor::route_heuristic(Vec2i { x: 0, y: 0 }, Vec2i { x: 3, y: -5 }), 5);
    let path = vec![Vec2i { x: 0, y: 0 }, Vec2i { x: 1, y: 0 }, Vec2i { x: 2, y: 0 }, Vec2i { x: 2, y: 1 }];
    assert_eq!(floor.route_cost(&path), 1 + 0 + 25);
    assert_eq!(floor.route_cost(&vec![Vec2i { x: 0, y: 0 }]), 0);
}
