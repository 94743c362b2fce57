use battilde::controls::Control;
use battilde::creature::{Alignment, Creature, CreatureType, Health};
use battilde::gamemode::GameMode;
use battilde::mapgen::{BuiltinMap, MapType};
use battilde::playerid::PlayerId;
use battilde::pos::{Direction, Pos};
use battilde::posmap::PosMap;
use battilde::render::{draw_changes, draw_field, same_stack};
use battilde::sprite::Sprite;
use battilde::tile::Tile;
use battilde::world::{RoundState, World};
use battilde::worldmessages::FieldMessage;

fn next(state: &mut u64) -> u64 {
    *state = state.wrapping_mul(6364136223846793005).wrapping_add(1442695040888963407);
    *state >> 33
}

fn some_control(state: &mut u64) -> Control {
    let dir = vec![Direction::North, Direction::South, Direction::East, Direction::West][(next(state) % 4) as usize];
    match next(state) % 8 {
        0 | 1 | 2 | 3 => Control::Move(dir),
        4 => Control::Shoot(Some(dir)),
        5 => Control::ShootPrecise(Pos::new((next(state) % 7) as i64 - 3, (next(state) % 7) as i64 - 3)),
        6 => Control::NextWeapon,
        _ => Control::PreviousWeapon,
    }
}

fn busy_world(mode: GameMode, seed: u64) -> World {
    let mut world = World::new(mode, MapType::Builtin(BuiltinMap::Square), seed);
    for id in 1..5 {
        world.add_player(&PlayerId(id), Sprite::Player("r", 'a')).unwrap();
    }
    world
}

fn distinct(cells: &Vec<(usize, Pos)>) -> bool {
    for a in 0..cells.len() {
        for b in (a + 1)..cells.len() {
            if cells[a].1 == cells[b].1 {
                return false;
            }
        }
    }
    true
}

fn cells(world: &World) -> Vec<(usize, Pos)> {
    world.creatures.iter().into_iter().map(|(key, c)| (key, c.pos)).collect()
}

#[test]
fn creatures_that_were_apart_stay_apart() {
    let mut apart_before = 0;
    for seed in 0..4 {
        let mut world = busy_world(GameMode::Survival, seed);
        let mut state = seed + 17;
        for _ in 0..250 {
            for id in 1..5 {
                world.control_player(PlayerId(id), some_control(&mut state)).unwrap();
            }
            let before = cells(&world);
            let last_key = world.creatures.last_key();
            assert!(world.ready());
            world.update();
            if distinct(&before) {
                apart_before += 1;
                let veterans: Vec<(usize, Pos)> = cells(&world).into_iter().filter(|(key, _)| *key <= last_key).collect();
                assert!(distinct(&veterans));
            }
        }
    }
    assert!(apart_before > 200);
}

#[test]
fn health_stays_within_bounds_and_the_dead_leave() {
    for seed in 0..3 {
        let mut world = busy_world(GameMode::PillarDefence, seed);
        let mut state = seed + 99;
        for _ in 0..300 {
            for id in 1..5 {
                world.control_player(PlayerId(id), some_control(&mut state)).unwrap();
            }
            world.update();
            for c in world.creatures.values() {
                assert!(c.health.0 <= c.max_health.0);
                assert!(c.health.0 > 0);
                assert!(!c.is_dead());
                assert!(c.cooldown.0 >= 0);
                assert!(world.ground.holds(c.pos));
                assert!(!c.is_building || c.mind == battilde::creature::Mind::Pillar);
            }
        }
    }
}

#[test]
fn bullets_are_in_range_and_off_the_walls() {
    let mut seen = 0;
    for seed in 0..3 {
        let mut world = busy_world(GameMode::Survival, seed);
        let mut state = seed + 5;
        for _ in 0..300 {
            for id in 1..5 {
                world.control_player(PlayerId(id), some_control(&mut state)).unwrap();
            }
            world.update();
            for b in &world.bullets {
                seen += 1;
                assert!(b.steps.x >= 0 && b.steps.y >= 0);
                assert!(b.steps.x + b.steps.y <= b.ammo.range.0);
                assert!(!b.out_of_range());
                match world.ground.get(b.pos) {
                    Some(tile) => assert!(!tile.bullet_blocking()),
                    None => {}
                }
            }
        }
    }
    assert!(seen > 50);
}

#[test]
fn a_bullet_that_would_enter_a_wall_is_retired_in_that_tick() {
    let mut world = World::new(GameMode::PvP, MapType::Builtin(BuiltinMap::Square), 1);
    world.add_player(&PlayerId(1), Sprite::Player("r", 'a')).unwrap();
    world.update();
    let body = world.players[0].1.body;
    world.creatures.get_mut(&body).unwrap().pos = Pos::new(27, 36);
    world.creatures.get_mut(&body).unwrap().selected_weapon = 2;
    assert_eq!(world.ground.get(Pos::new(28, 36)), Some(&Tile::Wall(battilde::tile::WallType::Wall)));
    world.control_player(PlayerId(1), Control::Shoot(Some(Direction::East))).unwrap();
    world.update();
    assert!(world.bullets.is_empty());
    assert_eq!(world.particles.get(Pos::new(28, 36)), Some(&Sprite::Custom("bullethor")));
    assert_eq!(world.particles.len(), 1);
}

fn stacks_of(field: &FieldMessage) -> Vec<Vec<Sprite>> {
    field.field.iter().map(|i| field.mapping[*i].clone()).collect()
}

#[test]
fn changes_applied_to_the_last_field_give_the_next_field() {
    let mut world = busy_world(GameMode::Survival, 11);
    let mut state = 3;
    world.update();
    let first = world.view();
    assert_eq!(first.len(), 4);
    let mut shown = stacks_of(first[0].1.field.as_ref().unwrap());
    assert!(first[0].1.change.is_none());
    let mut changed_cells = 0;
    for _ in 0..120 {
        for id in 1..5 {
            world.control_player(PlayerId(id), some_control(&mut state)).unwrap();
        }
        world.update();
        let views = world.view();
        let msg = &views[0].1;
        assert!(msg.field.is_none());
        let change = msg.change.as_ref().unwrap();
        let mut seen: Vec<Pos> = Vec::new();
        for (pos, stack) in change {
            assert!(!seen.contains(pos));
            seen.push(*pos);
            let at = (pos.y * 64 + pos.x) as usize;
            assert!(!same_stack(&shown[at], stack));
            shown[at] = stack.clone();
            changed_cells += 1;
        }
        let fresh = draw_field(world.size, &world.ground, world.drawing.as_ref().unwrap());
        assert_eq!(shown, stacks_of(&fresh));
    }
    assert!(changed_cells > 100);
}

#[test]
fn the_field_maps_every_cell_to_its_stack() {
    let mut world = busy_world(GameMode::PillarDefence, 2);
    world.update();
    let views = world.view();
    let field = views[0].1.field.as_ref().unwrap();
    assert_eq!(field.width, 64);
    assert_eq!(field.height, 64);
    assert_eq!(field.field.len(), 64 * 64);
    for a in 0..field.mapping.len() {
        for b in (a + 1)..field.mapping.len() {
            assert_ne!(field.mapping[a], field.mapping[b]);
        }
    }
    let mut highest = 0;
    for (i, index) in field.field.iter().enumerate() {
        assert!(*index <= highest);
        if *index == highest {
            highest += 1;
        }
        let pos = Pos::new((i % 64) as i64, (i / 64) as i64);
        let tile = world.ground.get_unchecked(pos).sprite();
        let stack = &field.mapping[*index];
        assert_eq!(*stack.last().unwrap(), tile);
        match world.drawing.as_ref().unwrap().get(pos) {
            Some(drawn) => assert_eq!(stack, drawn),
            None => assert_eq!(stack.len(), 1),
        }
    }
    assert_eq!(highest, field.mapping.len());
    let spawn = &field.mapping[field.field[32 * 64 + 32]];
    assert_eq!(
        *spawn,
        vec![
            Sprite::Player("r", 'a'),
            Sprite::Player("r", 'a'),
            Sprite::Player("r", 'a'),
            Sprite::Player("r", 'a'),
            Sprite::Custom("sanctuary")
        ]
    );
    let pillar = &field.mapping[field.field[36 * 64 + 36]];
    assert_eq!(*pillar, vec![Sprite::Custom("pillar"), Sprite::Custom("rubble")]);
}

#[test]
fn draw_changes_lists_what_differs() {
    let world = World::new(GameMode::PvP, MapType::Builtin(BuiltinMap::Square), 2);
    let floor = |p: Pos| world.ground.get_unchecked(p).sprite();
    let a = Pos::new(1, 1);
    let b = Pos::new(2, 1);
    let c = Pos::new(3, 1);
    let d = Pos::new(4, 1);
    let mut last: PosMap<Vec<Sprite>> = PosMap::new();
    last.insert(a, vec![Sprite::Custom("zombie"), floor(a)]);
    last.insert(b, vec![Sprite::Custom("zombie"), floor(b)]);
    last.insert(c, vec![Sprite::Custom("ymp"), floor(c)]);
    let mut now: PosMap<Vec<Sprite>> = PosMap::new();
    now.insert(a, vec![Sprite::Custom("zombie"), floor(a)]);
    now.insert(c, vec![Sprite::Custom("bite"), Sprite::Custom("ymp"), floor(c)]);
    now.insert(d, vec![Sprite::Custom("health"), floor(d)]);
    let mut change = draw_changes(&world.ground, &last, &now);
    change.sort_by_key(|(p, _)| p.x);
    assert_eq!(
        change,
        vec![
            (b, vec![floor(b)]),
            (c, vec![Sprite::Custom("bite"), Sprite::Custom("ymp"), floor(c)]),
            (d, vec![Sprite::Custom("health"), floor(d)])
        ]
    );
    assert!(draw_changes(&world.ground, &now, &now).is_empty());
}

#[test]
fn every_wave_has_one_tick_that_announces_it() {
    let mut world = World::new(GameMode::PillarDefence, MapType::Builtin(BuiltinMap::Square), 4);
    let mut announced = vec![0; 6];
    let mut wave = 0;
    for _ in 0..600 {
        for key in world.creatures.keys() {
            let c = world.creatures.get_mut(&key).unwrap();
            if c.alignment == Alignment::Players {
                c.health = Health(200);
            } else if world.to_spawn.is_empty() && world.round_state == RoundState::Running {
                c.health = Health(0);
            }
        }
        world.update();
        assert!(world.wave == wave || world.wave == wave + 1);
        if world.wave == wave + 1 {
            wave += 1;
            assert_eq!(world.round_state, RoundState::Paused(24));
            assert_eq!(
                world.to_spawn,
                battilde::waves::mode_substitute(GameMode::PillarDefence, &battilde::waves::wave_composition(wave))
            );
        }
        if wave >= 6 {
            break;
        }
        if world.round_state == RoundState::Paused(1) {
            announced[wave] += 1;
            assert!(!world.to_spawn.is_empty());
        }
        if let RoundState::Paused(_) = world.round_state {
            assert!(world.creatures.values().iter().all(|c| c.alignment != Alignment::Monsters));
        }
    }
    assert_eq!(wave, 6);
    assert_eq!(announced, vec![0, 1, 1, 1, 1, 1]);
}

#[test]
fn monsters_enter_every_fifth_tick() {
    let mut world = World::new(GameMode::Survival, MapType::Builtin(BuiltinMap::Square), 4);
    let mut entered = Vec::new();
    for _ in 0..70 {
        let before = world.creatures.len();
        let time = world.time.0;
        world.update();
        if world.creatures.len() > before {
            assert_eq!(world.creatures.len(), before + 1);
            entered.push(time);
            let newest = world.creatures.value_at(before);
            assert_eq!(newest.sprite, Sprite::Custom("zombie"));
            assert!(world.monsterspawn.contains(&newest.pos));
        }
    }
    assert_eq!(entered, vec![25, 30, 35, 40, 45, 50, 55, 60]);
    assert!(world.to_spawn.is_empty());
    let _ = Creature::create_creature(CreatureType::Zombie, Pos::new(0, 0), &mut world.dice);
}

#[test]
fn view_tells_players_about_their_bodies() {
    let mut world = busy_world(GameMode::Survival, 9);
    let before_spawn = world.view();
    assert!(before_spawn.is_empty());
    assert!(world.players[0].1.is_new);
    world.update();
    let views = world.view();
    assert_eq!(views.len(), 4);
    for (k, (id, msg)) in views.iter().enumerate() {
        assert_eq!(*id, PlayerId(k as u64 + 1));
        assert!(msg.field.is_some());
        assert!(msg.change.is_none());
        assert_eq!(msg.pos, Some(Pos::new(32, 32)));
        assert_eq!(msg.health, Some((Health(1), Health(100))));
        assert_eq!(msg.weapons, Some((vec!["Shotgun", "Rifle", "SMG"], 0)));
        assert_eq!(msg.sounds, None);
        assert!(!world.players[k].1.is_new);
    }
    world.add_player(&PlayerId(9), Sprite::Player("b", 'z')).unwrap();
    world.control_player(PlayerId(2), Control::NextWeapon).unwrap();
    world.update();
    let views = world.view();
    assert_eq!(views.len(), 5);
    assert!(views[0].1.change.is_some() && views[0].1.field.is_none());
    assert!(views[4].1.change.is_none() && views[4].1.field.is_some());
    assert_eq!(views[1].1.weapons, Some((vec!["Shotgun", "Rifle", "SMG"], 1)));
    assert_eq!(views[1].1.health, Some((Health(3), Health(100))));
    let change = views[0].1.change.as_ref().unwrap();
    assert_eq!(change.len(), 1);
    assert_eq!(change[0].0, Pos::new(32, 32));
    assert_eq!(change[0].1.len(), 6);
    assert_eq!(change[0].1[4], Sprite::Player("b", 'z'));
}

#[test]
fn view_announces_waves_and_new_sessions() {
    let mut world = busy_world(GameMode::Survival, 9);
    world.update();
    let mut texts = Vec::new();
    for _ in 0..30 {
        world.update();
        let views = world.view();
        if let Some(sounds) = &views[0].1.sounds {
            assert_eq!(world.round_state, RoundState::Paused(1));
            texts.push(sounds.clone());
        }
    }
    assert_eq!(texts, vec![vec![("wave".to_string(), "**** Wave 1 ****".to_string(), None)]]);
    world.wave = 12;
    world.round_state = RoundState::Paused(2);
    let body = world.players[0].1.body;
    world.creatures.get_mut(&body).unwrap().pos = Pos::new(32, 20);
    world.update();
    let views = world.view();
    assert_eq!(
        views[3].1.sounds,
        Some(vec![("wave".to_string(), "**** Wave 12 ****".to_string(), None)])
    );
    world.round_state = RoundState::GameOver(2);
    world.update();
    let views = world.view();
    assert_eq!(
        views[0].1.sounds,
        Some(vec![("gameover".to_string(), "---- Starting new session ----".to_string(), None)])
    );
}

#[test]
fn a_wave_follows_the_last_monster() {
    for mode in vec![GameMode::Survival, GameMode::PillarDefence] {
        let mut world = World::new(mode, MapType::Builtin(BuiltinMap::Square), 9);
        let mut zombie = Creature::create_creature(CreatureType::Zombie, Pos::new(5, 5), &mut world.dice);
        zombie.health = Health(0);
        let key = world.creatures.insert(zombie);
        assert!(world.to_spawn.is_empty());
        assert_eq!(world.round_state, RoundState::Running);
        world.update();
        assert_eq!(world.wave, 1);
        assert_eq!(world.round_state, RoundState::Paused(24));
        assert_eq!(world.to_spawn, battilde::waves::mode_substitute(mode, &battilde::waves::wave_composition(1)));
        assert!(!world.creatures.contains_key(&key));
        assert!(world.creatures.values().iter().all(|c| c.alignment != Alignment::Monsters));
    }
    let mut held = World::new(GameMode::Survival, MapType::Builtin(BuiltinMap::Square), 9);
    let zombie = Creature::create_creature(CreatureType::Zombie, Pos::new(5, 5), &mut held.dice);
    held.creatures.insert(zombie);
    held.update();
    assert_eq!(held.wave, 0);
    assert_eq!(held.round_state, RoundState::Running);
    assert!(held.to_spawn.is_empty());
}

#[test]
fn only_new_bodies_and_waiting_monsters_enter() {
    let mut world = World::new(GameMode::Survival, MapType::Builtin(BuiltinMap::Square), 11);
    for id in 1..4 {
        world.add_player(&PlayerId(id), Sprite::Player("g", 'a')).unwrap();
    }
    for tick in 0..80 {
        if tick == 40 {
            world.add_player(&PlayerId(7), Sprite::Player("r", 'z')).unwrap();
        }
        let keys = world.creatures.keys();
        let waiting = world.to_spawn.len();
        let homeless: Vec<PlayerId> = world
            .players
            .iter()
            .filter(|(_, player)| !world.creatures.contains_key(&player.body))
            .map(|(id, _)| *id)
            .collect();
        let counter = world.creatures.last_key();
        world.update();
        let newcomers: Vec<usize> = world.creatures.keys().into_iter().filter(|key| !keys.contains(key)).collect();
        let released = if world.to_spawn.len() < waiting { 1 } else { 0 };
        assert_eq!(newcomers.len(), homeless.len() + released);
        for (n, key) in newcomers.iter().enumerate() {
            assert!(*key > counter);
            let creature = world.creatures.get(key).unwrap();
            if n < homeless.len() {
                assert_eq!(creature.mind, battilde::creature::Mind::Player(homeless[n]));
                assert_eq!(creature.pos, world.spawnpoint);
                assert!(world.players.iter().any(|(id, player)| *id == homeless[n] && player.body == *key));
            } else {
                assert_eq!(creature.alignment, Alignment::Monsters);
                assert!(world.monsterspawn.contains(&creature.pos));
            }
        }
    }
    assert_eq!(world.players.len(), 4);
}
