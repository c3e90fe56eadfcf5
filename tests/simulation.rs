use roguelike::dungeon::generate;
use roguelike::map::{GameMap, RoomCandidate, TileType};
use roguelike::player::{get_item, try_move_player, Command, RunState};
use roguelike::rect::Rect;
use roguelike::state::{player_input, tick};
use roguelike::visibility::field_of_view;
use roguelike::world::{melee_damage, CombatStats, EntityData, LogEntry, Position, Viewshed, World};

fn blank() -> EntityData {
    EntityData {
        alive: true,
        position: None,
        monster: false,
        blocks_tile: false,
        viewshed: None,
        item: false,
        potion: None,
        stats: None,
        wants_to_melee: None,
        suffer_damage: 0,
        wants_to_pickup: None,
        in_backpack: None,
        wants_to_drink: None,
        wants_to_drop: None,
    }
}

fn open_map() -> GameMap {
    let mut m = GameMap::new_solid(20, 20);
    m.apply_room_to_map(&Rect::new(0, 0, 18, 18));
    m
}

fn player_at(x: i32, y: i32, power: i32, defense: i32, hp: i32) -> EntityData {
    EntityData {
        position: Some(Position { x, y }),
        blocks_tile: true,
        viewshed: Some(Viewshed { range: 8, dirty: true }),
        stats: Some(CombatStats { max_hp: 30, hp, defense, power }),
        ..blank()
    }
}

fn monster_at(x: i32, y: i32, power: i32, defense: i32, hp: i32) -> EntityData {
    EntityData { monster: true, ..player_at(x, y, power, defense, hp) }
}

fn item_at(x: i32, y: i32) -> EntityData {
    EntityData { position: Some(Position { x, y }), item: true, potion: Some(8), ..blank() }
}

#[test]
fn damage_is_never_below_one() {
    assert_eq!(melee_damage(1, 100), 1);
    assert_eq!(melee_damage(5, 5), 1);
    assert_eq!(melee_damage(10, 3), 7);
    assert_eq!(melee_damage(i32::MIN, i32::MAX), 1);
}

#[test]
fn potion_heal_is_capped_at_max_hp() {
    let player = EntityData {
        stats: Some(CombatStats { max_hp: 10, hp: 1, defense: 0, power: 1 }),
        ..player_at(5, 5, 1, 0, 1)
    };
    let mut w = World::new(open_map(), player, "Player".to_string());
    let potion = w.spawn(EntityData { in_backpack: Some(0), item: true, potion: Some(999), ..blank() }, "Potion".to_string());
    w.entities[0].wants_to_drink = Some(potion);
    w.potion_use_system();
    assert_eq!(w.entities[0].stats.unwrap().hp, 10);
    assert!(!w.entities[potion].alive);
    assert_eq!(w.entities[0].wants_to_drink, None);
}

#[test]
fn player_attack_kills_adjacent_monster() {
    let mut w = World::new(open_map(), player_at(5, 5, 10, 0, 30), "Player".to_string());
    let m = w.spawn(monster_at(6, 5, 4, 3, 5), "Goblin".to_string());
    let mut state = tick(&mut w, RunState::PreRun, None);
    assert_eq!(state, RunState::AwaitingInput);
    assert_eq!(w.entities[m].position, Some(Position { x: 6, y: 5 }));
    state = tick(&mut w, state, Some(Command::Move { dx: 1, dy: 0 }));
    assert_eq!(state, RunState::PlayerTurn);
    assert_eq!(w.entities[0].wants_to_melee, Some(m));
    assert_eq!(w.entities[0].position, Some(Position { x: 5, y: 5 }));
    state = tick(&mut w, state, None);
    assert_eq!(state, RunState::MonsterTurn);
    assert!(w.log.contains(&LogEntry::Hit { attacker: 0, target: m, amount: 7 }));
    assert!(w.log.contains(&LogEntry::Dies { entity: m }));
    assert!(w.log.contains(&LogEntry::Hit { attacker: m, target: 0, amount: 4 }));
    assert!(!w.entities[m].alive);
}

#[test]
fn damage_leaves_hp_negative_before_sweep() {
    let mut w = World::new(open_map(), player_at(5, 5, 10, 0, 30), "Player".to_string());
    let m = w.spawn(monster_at(6, 5, 4, 3, 5), "Goblin".to_string());
    w.entities[0].wants_to_melee = Some(m);
    w.melee_combat_system();
    assert_eq!(w.entities[m].suffer_damage, 7);
    w.damage_system();
    assert_eq!(w.entities[m].stats.unwrap().hp, -2);
    assert_eq!(w.entities[m].suffer_damage, 0);
    assert!(!w.delete_the_dead());
    assert!(!w.entities[m].alive);
}

#[test]
fn pending_damage_adds_up() {
    let mut w = World::new(open_map(), player_at(5, 5, 10, 0, 30), "Player".to_string());
    let a = w.spawn(monster_at(6, 5, 4, 0, 5), "A".to_string());
    let b = w.spawn(monster_at(4, 5, 6, 0, 5), "B".to_string());
    w.entities[a].wants_to_melee = Some(0);
    w.entities[b].wants_to_melee = Some(0);
    w.melee_combat_system();
    assert_eq!(w.entities[0].suffer_damage, 10);
    w.damage_system();
    assert_eq!(w.entities[0].stats.unwrap().hp, 20);
}

#[test]
fn player_death_is_reported() {
    let mut w = World::new(open_map(), player_at(5, 5, 1, 0, 0), "Player".to_string());
    assert!(w.delete_the_dead());
    assert!(w.entities[0].alive);
    assert_eq!(tick(&mut w, RunState::AwaitingInput, None), RunState::GameOver);
}

#[test]
fn no_key_changes_nothing() {
    let mut w = World::new(open_map(), player_at(5, 5, 10, 0, 30), "Player".to_string());
    w.spawn(monster_at(12, 12, 4, 3, 5), "Goblin".to_string());
    let state = tick(&mut w, RunState::PreRun, None);
    let before = w.entities.clone();
    let log_len = w.log.len();
    let blocked = w.map.blocked.clone();
    let next = tick(&mut w, state, None);
    assert_eq!(next, RunState::AwaitingInput);
    assert_eq!(w.entities, before);
    assert_eq!(w.log.len(), log_len);
    assert_eq!(w.map.blocked, blocked);
}

#[test]
fn dropping_places_item_at_player() {
    let mut w = World::new(open_map(), player_at(7, 8, 10, 0, 30), "Player".to_string());
    let it = w.spawn(EntityData { in_backpack: Some(0), item: true, potion: Some(8), ..blank() }, "Potion".to_string());
    let state = tick(&mut w, RunState::ShowDropItem, Some(Command::Select { item: it }));
    assert_eq!(state, RunState::PlayerTurn);
    assert_eq!(w.entities[0].wants_to_drop, Some(it));
    let state = tick(&mut w, state, None);
    assert_eq!(state, RunState::MonsterTurn);
    assert_eq!(w.entities[it].position, Some(Position { x: 7, y: 8 }));
    assert_eq!(w.entities[it].in_backpack, None);
    assert_eq!(w.entities[0].wants_to_drop, None);
}

#[test]
fn inventory_menu_selection_drinks() {
    let mut w = World::new(open_map(), player_at(7, 8, 10, 0, 20), "Player".to_string());
    let it = w.spawn(EntityData { in_backpack: Some(0), item: true, potion: Some(8), ..blank() }, "Potion".to_string());
    assert_eq!(tick(&mut w, RunState::ShowInventory, None), RunState::ShowInventory);
    let state = tick(&mut w, RunState::ShowInventory, Some(Command::Select { item: it }));
    assert_eq!(state, RunState::PlayerTurn);
    tick(&mut w, state, None);
    assert_eq!(w.entities[0].stats.unwrap().hp, 28);
    assert!(!w.entities[it].alive);
    assert_eq!(tick(&mut w, RunState::ShowInventory, Some(Command::Cancel)), RunState::AwaitingInput);
}

#[test]
fn pickup_once_then_no_op() {
    let mut w = World::new(open_map(), player_at(3, 3, 10, 0, 30), "Player".to_string());
    let it = w.spawn(item_at(3, 3), "Potion".to_string());
    get_item(&mut w);
    w.item_collection_system();
    assert_eq!(w.entities[it].position, None);
    assert_eq!(w.entities[it].in_backpack, Some(0));
    assert_eq!(w.entities[0].wants_to_pickup, None);
    let after = w.entities.clone();
    w.item_collection_system();
    assert_eq!(w.entities, after);
}

#[test]
fn nothing_to_pick_up_is_logged() {
    let mut w = World::new(open_map(), player_at(3, 3, 10, 0, 30), "Player".to_string());
    w.spawn(item_at(4, 3), "Potion".to_string());
    let state = player_input(&mut w, Some(Command::PickUp));
    assert_eq!(state, RunState::PlayerTurn);
    assert_eq!(w.log, vec![LogEntry::NothingToPickUp]);
    assert_eq!(w.entities[0].wants_to_pickup, None);
}

#[test]
fn input_commands_pick_states() {
    let mut w = World::new(open_map(), player_at(3, 3, 10, 0, 30), "Player".to_string());
    assert_eq!(player_input(&mut w, None), RunState::AwaitingInput);
    assert_eq!(player_input(&mut w, Some(Command::OpenInventory)), RunState::ShowInventory);
    assert_eq!(player_input(&mut w, Some(Command::OpenDropMenu)), RunState::ShowDropItem);
    assert_eq!(player_input(&mut w, Some(Command::Quit)), RunState::SaveGame);
    assert_eq!(player_input(&mut w, Some(Command::Move { dx: 2, dy: 0 })), RunState::AwaitingInput);
    assert_eq!(w.entities[0].position, Some(Position { x: 3, y: 3 }));
}

#[test]
fn moving_into_wall_or_open_floor() {
    let mut w = World::new(open_map(), player_at(1, 1, 10, 0, 30), "Player".to_string());
    w.map_indexing_system();
    try_move_player(-1, 0, &mut w);
    assert_eq!(w.entities[0].position, Some(Position { x: 1, y: 1 }));
    try_move_player(1, 1, &mut w);
    assert_eq!(w.entities[0].position, Some(Position { x: 2, y: 2 }));
    assert_eq!(w.player_pos, Position { x: 2, y: 2 });
    assert!(w.entities[0].viewshed.unwrap().dirty);
}

#[test]
fn monster_steps_toward_visible_player() {
    let mut w = World::new(open_map(), player_at(3, 3, 10, 0, 30), "Player".to_string());
    let m = w.spawn(monster_at(8, 5, 4, 3, 5), "Goblin".to_string());
    w.visibility_system();
    w.map_indexing_system();
    w.monster_ai_system();
    assert_eq!(w.entities[m].position, Some(Position { x: 7, y: 4 }));
    assert!(w.entities[m].viewshed.unwrap().dirty);
    assert_eq!(w.entities[m].wants_to_melee, None);
}

#[test]
fn monster_without_sight_waits() {
    let mut w = World::new(open_map(), player_at(2, 2, 10, 0, 30), "Player".to_string());
    let m = w.spawn(
        EntityData { viewshed: Some(Viewshed { range: 3, dirty: true }), ..monster_at(15, 15, 4, 3, 5) },
        "Goblin".to_string(),
    );
    w.visibility_system();
    w.map_indexing_system();
    w.monster_ai_system();
    assert_eq!(w.entities[m].position, Some(Position { x: 15, y: 15 }));
}

#[test]
fn view_stops_at_walls_and_range() {
    let mut m = GameMap::new_solid(20, 20);
    m.apply_room_to_map(&Rect::new(0, 0, 8, 8));
    let v = field_of_view(&m, 4, 4, 3);
    assert!(v[m.xy_idx(4, 4)]);
    assert!(v[m.xy_idx(6, 6)]);
    assert!(!v[m.xy_idx(7, 7)]);
    assert!(!v[m.xy_idx(4, 8)]);
    let v = field_of_view(&m, 4, 4, 10);
    assert!(v[m.xy_idx(4, 9)]);
    assert!(!v[m.xy_idx(4, 10)]);
}

#[test]
fn visibility_marks_player_tiles_revealed() {
    let mut w = World::new(open_map(), player_at(5, 5, 10, 0, 30), "Player".to_string());
    w.visibility_system();
    let i = w.map.xy_idx(6, 5);
    assert!(w.map.visible_tiles[i] && w.map.revealed_tiles[i]);
    assert!(!w.entities[0].viewshed.unwrap().dirty);
    w.entities[0].position = Some(Position { x: 15, y: 15 });
    w.entities[0].viewshed = Some(Viewshed { range: 2, dirty: true });
    w.visibility_system();
    assert!(!w.map.visible_tiles[i]);
    assert!(w.map.revealed_tiles[i]);
}

#[test]
fn generator_keeps_border_rooms_and_corridors() {
    let mut rng = rltk::RandomNumberGenerator::seeded(7);
    let m = generate(&mut rng, 80, 50, 30);
    assert!(!m.rooms.is_empty());
    for x in 0..80 {
        assert_eq!(m.tiles[m.xy_idx(x, 0)], TileType::Wall);
        assert_eq!(m.tiles[m.xy_idx(x, 49)], TileType::Wall);
    }
    for y in 0..50 {
        assert_eq!(m.tiles[m.xy_idx(0, y)], TileType::Wall);
        assert_eq!(m.tiles[m.xy_idx(79, y)], TileType::Wall);
    }
    for r in m.rooms.iter() {
        for y in r.y1 + 1..=r.y2 {
            for x in r.x1 + 1..=r.x2 {
                assert_eq!(m.tiles[m.xy_idx(x, y)], TileType::Floor);
            }
        }
    }
}

#[test]
fn generator_skips_overlapping_and_oversized_candidates() {
    let c = |x, y, w, h| RoomCandidate { x, y, w, h, horizontal_first: true };
    let cands = vec![c(1, 1, 4, 4), c(3, 3, 4, 4), c(30, 30, 4, 4), c(10, 1, 4, 4)];
    let m = GameMap::new_map_rooms_and_corridors(20, 20, &cands);
    assert_eq!(m.rooms.len(), 2);
    assert_eq!(m.rooms[0], Rect { x1: 1, y1: 1, x2: 5, y2: 5 });
    assert_eq!(m.rooms[1], Rect { x1: 10, y1: 1, x2: 14, y2: 5 });
    for x in 3..=12 {
        assert_eq!(m.tiles[m.xy_idx(x, 3)], TileType::Floor);
    }
    assert_eq!(m.rooms[1].center(), (12, 3));
}

#[test]
fn drawn_candidates_fit_and_vary() {
    let mut rng = rltk::RandomNumberGenerator::seeded(11);
    let cands = roguelike::dungeon::draw_candidates(&mut rng, 80, 50, 30);
    assert_eq!(cands.len(), 30);
    for c in cands.iter() {
        assert!(c.w >= 6 && c.w < 10 && c.h >= 6 && c.h < 10);
        assert!(c.x >= 0 && c.y >= 0 && c.x + c.w <= 78 && c.y + c.h <= 48);
    }
    assert!(cands.iter().any(|c| c.x != cands[0].x || c.y != cands[0].y));
}

#[test]
fn earlier_monster_wins_contested_tile() {
    let mut w = World::new(open_map(), player_at(5, 5, 10, 0, 30), "Player".to_string());
    let b = w.spawn(monster_at(7, 4, 4, 3, 5), "B".to_string());
    let c = w.spawn(monster_at(7, 5, 4, 3, 5), "C".to_string());
    w.visibility_system();
    w.map_indexing_system();
    w.monster_ai_system();
    assert_eq!(w.entities[b].position, Some(Position { x: 6, y: 5 }));
    assert_eq!(w.entities[c].position, Some(Position { x: 7, y: 5 }));
    let from = w.map.xy_idx(7, 4);
    let to = w.map.xy_idx(6, 5);
    assert!(!w.map.blocked[from] && w.map.blocked[to]);
}

#[test]
fn sight_is_symmetric_around_a_pillar() {
    let mut m = open_map();
    let pillar = m.xy_idx(6, 5);
    m.tiles[pillar] = TileType::Wall;
    let cells: Vec<(i32, i32)> = (3..10).flat_map(|x| (3..9).map(move |y| (x, y))).collect();
    for &(ax, ay) in cells.iter() {
        let from_a = field_of_view(&m, ax, ay, 6);
        for &(bx, by) in cells.iter() {
            let from_b = field_of_view(&m, bx, by, 6);
            assert_eq!(from_a[m.xy_idx(bx, by)], from_b[m.xy_idx(ax, ay)]);
        }
    }
    let v = field_of_view(&m, 4, 5, 6);
    assert!(!v[m.xy_idx(8, 5)]);
}
