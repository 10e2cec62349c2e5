use bracket_lib::random::RandomNumberGenerator;
use dungeon_core::combat::{gain_experience, melee_damage};
use dungeon_core::components::{
    BlocksTile, CombatStats, Consumable, HealEffect, InBackpack, Item, Monster, Name, Position, Viewshed,
    WantsToDrinkPotion, WantsToDropItem, WantsToMelee, WantsToPickupItem, WantsToDisplayContent,
};
use dungeon_core::game::{inventory_of, ItemMenuResult, State, TickEvent, MAP_X, MAP_Y};
use dungeon_core::inventory::{
    drink_potion, drop_item, pick_up, ItemCollectionSystem, ItemDropSystem, ItemListingSystem, ItemUseSystem,
};
use dungeon_core::map::{DungeonMap, TileType};
use dungeon_core::player::Command;
use dungeon_core::rect::Rect;
use dungeon_core::spawner::{spawn_player, spawn_room_contents};
use dungeon_core::state::RunState;
use dungeon_core::world::{EntityData, LogEntry, World};

fn open_map(w: i32, h: i32) -> DungeonMap {
    let mut m = DungeonMap::new_blank(w, h);
    for t in m.tiles.iter_mut() {
        *t = TileType::Floor;
    }
    m.populate_blocked();
    m
}

fn potion(world: &mut World, pos: Option<Position>, owner: Option<usize>) -> usize {
    let mut d = EntityData::empty();
    d.position = pos;
    d.item = Some(Item {});
    d.consumable = Some(Consumable {});
    d.heal_effect = Some(HealEffect { amount: 8 });
    d.in_backpack = owner.map(|o| InBackpack { owner: o });
    d.name = Some(Name { name: "Health Potion".to_string() });
    world.create_entity(d)
}

fn goblin(world: &mut World, x: i32, y: i32, hp: i32) -> usize {
    let mut d = EntityData::empty();
    d.position = Some(Position { x, y });
    d.monster = Some(Monster {});
    d.blocks_tile = Some(BlocksTile {});
    d.name = Some(Name { name: "Goblin".to_string() });
    d.combat_stats = Some(CombatStats {
        max_hp: 15,
        hp,
        attack: 4,
        defense: 1,
        strength: 1,
        agility: 1,
        vitality: 3,
        magic: 1,
        level: 1,
        exp: 0,
    });
    d.viewshed = Some(Viewshed { visible_tiles: Vec::new(), range: 6, dirty: false });
    world.create_entity(d)
}

fn key(c: Command) -> TickEvent {
    TickEvent { key: Some(c), menu: ItemMenuResult::NoResponse, selection: None }
}

fn idle() -> TickEvent {
    TickEvent { key: None, menu: ItemMenuResult::NoResponse, selection: None }
}

fn no_outside_work(state: &State) -> (Vec<Vec<Position>>, Vec<Vec<usize>>) {
    let n = state.world.entities.len();
    (vec![Vec::new(); n], vec![Vec::new(); n])
}

fn scripted_state() -> (State, usize, usize) {
    let mut world = World::new();
    let p = spawn_player(&mut world, 5, 5);
    let g = goblin(&mut world, 5, 6, 3);
    let state = State {
        world,
        map: open_map(12, 12),
        run_state: RunState::PreRun,
        rng: RandomNumberGenerator::seeded(5),
    };
    (state, p, g)
}

#[test]
fn bumping_a_visible_monster_kills_it_over_a_player_turn() {
    let (mut s, p, g) = scripted_state();
    // the pipeline of the first frame: the player sees the monster
    let (mut fovs, paths) = no_outside_work(&s);
    fovs[p] = vec![Position { x: 5, y: 5 }, Position { x: 5, y: 6 }];
    s.tick(idle(), &fovs, &paths);
    assert_eq!(s.run_state, RunState::AwaitingInput);
    assert!(s.map.visible_tiles[s.map.xy_idx(5, 6)]);
    assert!(s.map.blocked[s.map.xy_idx(5, 6)]);
    // moving down into the monster registers an attack instead of a move
    let (fovs, paths) = no_outside_work(&s);
    s.tick(key(Command::Down), &fovs, &paths);
    assert_eq!(s.run_state, RunState::PlayerTurn);
    let pd = s.world.entities[p].as_ref().unwrap();
    assert_eq!(pd.position, Some(Position { x: 5, y: 5 }));
    assert_eq!(pd.wants_to_melee, Some(WantsToMelee { target: g }));
    // the player's turn resolves it: 5 - 1 = 4 damage kills a monster at 3
    let (fovs, paths) = no_outside_work(&s);
    s.tick(idle(), &fovs, &paths);
    assert_eq!(s.run_state, RunState::MonsterTurn);
    assert!(s.world.entities[g].is_none());
    assert_eq!(s.world.entities[p].as_ref().unwrap().combat_stats.unwrap().exp, 15);
    assert!(s.world.log.iter().any(|l| matches!(l, LogEntry::Hit { amount: 4, .. })));
}

#[test]
fn scheduler_cycles_through_the_turn() {
    let (mut s, _, _) = scripted_state();
    let mut seen = Vec::new();
    for ev in [idle(), key(Command::Left), idle(), idle(), key(Command::Other), idle()] {
        let (fovs, paths) = no_outside_work(&s);
        s.tick(ev, &fovs, &paths);
        seen.push(s.run_state);
    }
    assert_eq!(
        seen,
        vec![
            RunState::AwaitingInput,
            RunState::PlayerTurn,
            RunState::MonsterTurn,
            RunState::AwaitingInput,
            RunState::AwaitingInput,
            RunState::AwaitingInput
        ]
    );
}

#[test]
fn menus_open_close_and_register_intents() {
    let (mut s, p, _) = scripted_state();
    let i = potion(&mut s.world, None, Some(p));
    s.run_state = RunState::AwaitingInput;
    let (fovs, paths) = no_outside_work(&s);
    s.tick(key(Command::Inventory), &fovs, &paths);
    assert_eq!(s.run_state, RunState::ShowInventory);
    s.tick(idle(), &fovs, &paths);
    assert_eq!(s.run_state, RunState::ShowInventory);
    s.tick(TickEvent { key: None, menu: ItemMenuResult::Cancel, selection: None }, &fovs, &paths);
    assert_eq!(s.run_state, RunState::AwaitingInput);
    s.tick(key(Command::DropMenu), &fovs, &paths);
    assert_eq!(s.run_state, RunState::ShowDropItem);
    s.tick(TickEvent { key: None, menu: ItemMenuResult::Selected, selection: Some(i) }, &fovs, &paths);
    assert_eq!(s.run_state, RunState::PlayerTurn);
    assert_eq!(s.world.entities[p].as_ref().unwrap().wants_to_drop_item, Some(WantsToDropItem { item: i }));
    s.run_state = RunState::ShowCharacter;
    s.tick(idle(), &fovs, &paths);
    assert_eq!(s.run_state, RunState::ShowCharacter);
    s.tick(TickEvent { key: None, menu: ItemMenuResult::Cancel, selection: None }, &fovs, &paths);
    assert_eq!(s.run_state, RunState::AwaitingInput);
}

#[test]
fn dead_state_absorbs_everything() {
    let (mut s, p, _) = scripted_state();
    s.world.entities[p].as_mut().unwrap().combat_stats.as_mut().unwrap().hp = -4;
    let (fovs, paths) = no_outside_work(&s);
    s.tick(idle(), &fovs, &paths);
    assert_eq!(s.run_state, RunState::Dead);
    let deaths = s.world.log.iter().filter(|l| matches!(l, LogEntry::PlayerDied)).count();
    s.tick(key(Command::Up), &fovs, &paths);
    assert_eq!(s.run_state, RunState::Dead);
    assert_eq!(s.world.log.iter().filter(|l| matches!(l, LogEntry::PlayerDied)).count(), deaths);
}

#[test]
fn new_game_places_the_player_in_the_first_room() {
    let s = State::new_game();
    assert_eq!(s.run_state, RunState::PreRun);
    assert_eq!((s.map.width, s.map.height), (MAP_X, MAP_Y));
    let pd = s.world.entities[s.world.player].as_ref().unwrap();
    assert!(pd.player.is_some());
    let (cx, cy) = s.map.rooms[0].center();
    assert_eq!(pd.position, Some(Position { x: cx, y: cy }));
    // the player's glyph comes from the code page table
    assert_eq!(pd.renderable.unwrap().glyph, 64);
}

#[test]
fn room_contents_stay_inside_and_apart() {
    let room = Rect::new(10, 10, 8, 6);
    for seed in 0..30u64 {
        let mut rng = RandomNumberGenerator::seeded(seed);
        let mut world = World::new();
        spawn_player(&mut world, 1, 1);
        spawn_room_contents(&mut world, &mut rng, &room);
        let added: Vec<&EntityData> = world.entities[1..].iter().map(|d| d.as_ref().unwrap()).collect();
        assert!(added.len() <= 4);
        let mut spots = Vec::new();
        for d in &added {
            let pos = d.position.unwrap();
            assert!(room.x1 < pos.x && pos.x <= room.x2 && room.y1 < pos.y && pos.y <= room.y2);
            assert!(d.monster.is_some() || d.item.is_some());
            spots.push((d.monster.is_some(), pos));
        }
        for i in 0..spots.len() {
            for j in i + 1..spots.len() {
                assert_ne!(spots[i], spots[j]);
            }
        }
        for d in added.iter().filter(|d| d.monster.is_some()) {
            let g = d.renderable.unwrap().glyph;
            assert!(g == 's' as u16 || g == 'g' as u16);
        }
    }
}

#[test]
fn pickup_and_drop_move_items_between_map_and_backpack() {
    let mut world = World::new();
    let p = spawn_player(&mut world, 3, 3);
    let i = potion(&mut world, Some(Position { x: 3, y: 3 }), None);
    pick_up(&mut world, p, i);
    let d = world.entities[i].as_ref().unwrap();
    assert_eq!(d.position, None);
    assert_eq!(d.in_backpack, Some(InBackpack { owner: p }));
    assert!(matches!(world.log.last(), Some(LogEntry::PickedUp { .. })));
    assert_eq!(inventory_of(&world, p), vec![i]);
    drop_item(&mut world, p, i, Position { x: 4, y: 3 });
    let d = world.entities[i].as_ref().unwrap();
    assert_eq!(d.position, Some(Position { x: 4, y: 3 }));
    assert_eq!(d.in_backpack, None);
    assert!(inventory_of(&world, p).is_empty());
}

#[test]
fn potion_heals_up_to_the_maximum_and_is_used_up() {
    let mut world = World::new();
    let p = spawn_player(&mut world, 3, 3);
    let i = potion(&mut world, None, Some(p));
    world.entities[p].as_mut().unwrap().combat_stats.as_mut().unwrap().hp = 20;
    drink_potion(&mut world, p, i);
    assert_eq!(world.entities[p].as_ref().unwrap().combat_stats.unwrap().hp, 28);
    assert!(world.entities[i].is_none());
    let j = potion(&mut world, None, Some(p));
    drink_potion(&mut world, p, j);
    assert_eq!(world.entities[p].as_ref().unwrap().combat_stats.unwrap().hp, 30);
    assert!(matches!(world.log.last(), Some(LogEntry::Healed { amount: 8, .. })));
}

#[test]
fn item_systems_consume_their_intents() {
    let mut world = World::new();
    let p = spawn_player(&mut world, 3, 3);
    let a = potion(&mut world, Some(Position { x: 3, y: 3 }), None);
    let b = potion(&mut world, None, Some(p));
    let c = potion(&mut world, None, Some(p));
    world.entities[a].as_mut().unwrap().wants_to_display_content = Some(WantsToDisplayContent {});
    ItemListingSystem {}.run(&mut world);
    assert!(matches!(world.log.last(), Some(LogEntry::ThereIsA { .. })));
    assert!(world.entities[a].as_ref().unwrap().wants_to_display_content.is_none());
    world.entities[p].as_mut().unwrap().wants_to_pickup_item = Some(WantsToPickupItem { collected_by: p, item: a });
    ItemCollectionSystem {}.run(&mut world);
    assert_eq!(world.entities[a].as_ref().unwrap().in_backpack, Some(InBackpack { owner: p }));
    assert!(world.entities[p].as_ref().unwrap().wants_to_pickup_item.is_none());
    world.entities[p].as_mut().unwrap().wants_to_drink_potion = Some(WantsToDrinkPotion { potion: b });
    ItemUseSystem {}.run(&mut world);
    assert!(world.entities[b].is_none());
    assert!(world.entities[p].as_ref().unwrap().wants_to_drink_potion.is_none());
    world.entities[p].as_mut().unwrap().wants_to_drop_item = Some(WantsToDropItem { item: c });
    ItemDropSystem {}.run(&mut world);
    assert_eq!(world.entities[c].as_ref().unwrap().position, Some(Position { x: 3, y: 3 }));
    assert!(world.entities[p].as_ref().unwrap().wants_to_drop_item.is_none());
}

#[test]
fn many_levels_at_once_spend_experience_in_order() {
    let mut rng = RandomNumberGenerator::seeded(9);
    let s = CombatStats {
        max_hp: 30,
        hp: 30,
        attack: 5,
        defense: 2,
        strength: 1,
        agility: 1,
        vitality: 6,
        magic: 1,
        level: 1,
        exp: 50,
    };
    // 100 for level 1, 200 for level 2, 50 left over
    let (t, ups) = gain_experience(s, 300, &mut rng);
    assert_eq!((ups, t.level, t.exp), (2, 3, 50));
    assert!(t.vitality >= 6 && t.vitality <= 8);
    assert_eq!(t.max_hp, t.vitality * 5);
    assert_eq!(melee_damage(t.attack, 0), 5);
}
