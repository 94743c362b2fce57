use battilde::controls::{Action, Control};
use battilde::creature::{Alignment, Creature, CreatureType, Health, Mind};
use battilde::errors::WorldError;
use battilde::gamemode::GameMode;
use battilde::item::Item;
use battilde::mapgen::{BuiltinMap, MapTemplate, MapType};
use battilde::player::Player;
use battilde::playerid::PlayerId;
use battilde::pos::{Direction, Pos};
use battilde::sprite::Sprite;
use battilde::tile::Tile;
use battilde::timestamp::{Duration, Timestamp};
use battilde::weapon::{Bullet, Weapon};
use battilde::world::{RoundState, World};

fn square(mode: GameMode, seed: u64) -> World {
    World::new(mode, MapType::Builtin(BuiltinMap::Square), seed)
}

fn sprite() -> Sprite {
    Sprite::Player("g", 'a')
}

fn with_player(mode: GameMode, seed: u64) -> (World, usize) {
    let mut world = square(mode, seed);
    world.add_player(&PlayerId(1), sprite()).unwrap();
    world.update();
    let body = world.players[0].1.body;
    (world, body)
}

fn body_of(world: &World, body: usize) -> Creature {
    world.creatures.get(&body).unwrap().clone()
}

fn small_world(lines: Vec<&str>, spawn: Pos, mode: GameMode) -> World {
    let rows: Vec<String> = lines.iter().map(|l| l.to_string()).collect();
    let size = Pos::new(lines[0].len() as i64, lines.len() as i64);
    let template = MapTemplate::from_rows(size, &rows, Vec::new(), spawn, vec![Pos::new(0, 0)]).unwrap();
    World::new(mode, MapType::Custom(template), 5)
}

#[test]
fn new_world_is_fresh() {
    let world = square(GameMode::PillarDefence, 1);
    assert_eq!(world.time, Timestamp(0));
    assert_eq!(world.size, Pos::new(64, 64));
    assert_eq!(world.spawnpoint, Pos::new(32, 32));
    assert_eq!(world.wave, 0);
    assert_eq!(world.round_state, RoundState::Running);
    assert_eq!(world.nplayers(), 0);
    assert!(world.bullets.is_empty());
    assert!(world.to_spawn.is_empty());
    assert_eq!(world.items.len(), 0);
    assert_eq!(world.particles.len(), 0);
    assert!(world.drawing.is_none());
    assert_eq!(world.creatures.len(), 4);
    assert_eq!(world.creatures.keys(), vec![2, 3, 4, 5]);
    for pillar in world.creatures.values() {
        assert_eq!(pillar.mind, Mind::Pillar);
        assert_eq!(pillar.health, Health(200));
    }
    assert!(world.ready());
    assert_eq!(*world.building_distances.get_unchecked(Pos::new(36, 36)), Some(0));
    assert_eq!(*world.building_distances.get_unchecked(Pos::new(37, 36)), Some(1));
    assert_eq!(*world.building_distances.get_unchecked(Pos::new(38, 37)), Some(3));
}

#[test]
fn join_is_refused_for_a_player_who_is_there() {
    let mut world = square(GameMode::Survival, 1);
    assert_eq!(world.add_player(&PlayerId(1), sprite()), Ok(()));
    assert_eq!(world.add_player(&PlayerId(2), sprite()), Ok(()));
    assert_eq!(world.add_player(&PlayerId(1), Sprite::Player("r", 'b')), Err(WorldError::PlayerAlreadyExists));
    assert_eq!(world.nplayers(), 2);
    assert_eq!(
        world.players,
        vec![
            (PlayerId(1), Player { plan: None, sprite: sprite(), body: 0, is_new: true }),
            (PlayerId(2), Player { plan: None, sprite: sprite(), body: 0, is_new: true })
        ]
    );
}

#[test]
fn leave_takes_the_player_and_its_body() {
    let (mut world, body) = with_player(GameMode::Survival, 1);
    assert!(world.creatures.contains_key(&body));
    assert_eq!(world.remove_player(&PlayerId(2)), Err(WorldError::PlayerNotFound));
    assert_eq!(world.remove_player(&PlayerId(1)), Ok(()));
    assert_eq!(world.nplayers(), 0);
    assert!(!world.creatures.contains_key(&body));
    assert_eq!(world.remove_player(&PlayerId(1)), Err(WorldError::PlayerNotFound));
}

#[test]
fn input_is_kept_until_the_tick_and_the_last_one_wins() {
    let (mut world, _) = with_player(GameMode::Survival, 1);
    assert_eq!(world.control_player(PlayerId(9), Control::Suicide), Err(WorldError::PlayerNotFound));
    assert_eq!(world.control_player(PlayerId(1), Control::Move(Direction::East)), Ok(()));
    assert_eq!(world.control_player(PlayerId(1), Control::Move(Direction::West)), Ok(()));
    assert_eq!(world.players[0].1.plan, Some(Control::Move(Direction::West)));
    world.update();
    assert_eq!(world.players[0].1.plan, None);
    let body = world.players[0].1.body;
    assert_eq!(body_of(&world, body).pos, Pos::new(31, 32));
}

#[test]
fn perform_carries_out_actions() {
    let mut world = square(GameMode::PvP, 1);
    assert_eq!(world.perform(Action::Join(PlayerId(3), sprite())), Ok(()));
    assert_eq!(world.perform(Action::Join(PlayerId(3), sprite())), Err(WorldError::PlayerAlreadyExists));
    assert_eq!(world.perform(Action::Input(PlayerId(3), Control::NextWeapon)), Ok(()));
    assert_eq!(world.perform(Action::Input(PlayerId(4), Control::NextWeapon)), Err(WorldError::PlayerNotFound));
    assert_eq!(world.players[0].1.plan, Some(Control::NextWeapon));
    assert_eq!(world.perform(Action::Leave(PlayerId(4))), Err(WorldError::PlayerNotFound));
    assert_eq!(world.perform(Action::Leave(PlayerId(3))), Ok(()));
    assert_eq!(world.nplayers(), 0);
}

#[test]
fn controls_know_whether_they_can_be_carried_out() {
    assert!(Control::Move(Direction::North).is_valid());
    assert!(Control::ShootPrecise(Pos::new(1048576, -1048576)).is_valid());
    assert!(!Control::ShootPrecise(Pos::new(1048577, 0)).is_valid());
    assert!(!Control::ShootPrecise(Pos::new(0, i64::MIN)).is_valid());
}

#[test]
fn a_player_gets_a_body_on_the_spawn_point() {
    let (world, body) = with_player(GameMode::Survival, 1);
    let c = body_of(&world, body);
    assert_eq!(c.pos, Pos::new(32, 32));
    assert_eq!(c.mind, Mind::Player(PlayerId(1)));
    assert_eq!(c.alignment, Alignment::Players);
    assert_eq!(c.sprite, sprite());
    assert_eq!(c.health, Health(1));
    let (pvp, pvp_body) = with_player(GameMode::PvP, 1);
    assert_eq!(body_of(&pvp, pvp_body).alignment, Alignment::Player(PlayerId(1)));
}

#[test]
fn survival_first_shot_is_stopped_by_the_gate() {
    let (mut world, body) = with_player(GameMode::Survival, 1);
    world.control_player(PlayerId(1), Control::NextWeapon).unwrap();
    world.update();
    assert_eq!(body_of(&world, body).selected_weapon, 1);
    world.control_player(PlayerId(1), Control::Shoot(Some(Direction::North))).unwrap();
    world.update();
    let c = body_of(&world, body);
    assert_eq!(c.cooldown, Weapon::rifle().get_cooldown());
    assert_eq!(c.dir, Direction::North);
    assert_eq!(c.pos, Pos::new(32, 32));
    assert!(world.bullets.is_empty());
    for y in 28..32 {
        assert_eq!(world.particles.get(Pos::new(32, y)), Some(&Sprite::Custom("bulletvert")));
    }
    assert_eq!(world.particles.get(Pos::new(32, 27)), None);
    assert_eq!(world.particles.get(Pos::new(32, 32)), None);
    world.update();
    assert_eq!(world.particles.len(), 0);
    assert_eq!(body_of(&world, body).cooldown, Duration(3));
}

#[test]
fn a_bullet_flies_its_speed_in_every_tick() {
    let (mut world, body) = with_player(GameMode::Survival, 1);
    {
        let c = world.creatures.get_mut(&body).unwrap();
        c.pos = Pos::new(32, 20);
        c.selected_weapon = 1;
    }
    world.control_player(PlayerId(1), Control::Shoot(Some(Direction::North))).unwrap();
    world.update();
    let ammo = Weapon::rifle().ammo;
    assert_eq!(
        world.bullets,
        vec![Bullet {
            direction: Pos::new(0, -1),
            steps: Pos::new(0, 4),
            pos: Pos::new(32, 16),
            alignment: Alignment::Players,
            ammo,
        }]
    );
    world.update();
    assert_eq!(world.bullets.len(), 1);
    assert_eq!(world.bullets[0].pos, Pos::new(32, 12));
    assert_eq!(world.bullets[0].steps, Pos::new(0, 8));
    for y in 12..16 {
        assert_eq!(world.particles.get(Pos::new(32, y)), Some(&Sprite::Custom("bulletvert")));
    }
    for _ in 0..3 {
        world.update();
    }
    assert_eq!(world.bullets.len(), 1);
    assert_eq!(world.bullets[0].pos, Pos::new(32, 0));
    world.update();
    assert_eq!(world.bullets.len(), 1);
    assert_eq!(world.bullets[0].pos, Pos::new(32, -4));
    for _ in 0..4 {
        world.update();
    }
    assert_eq!(world.bullets.len(), 1);
    assert_eq!(world.bullets[0].steps, Pos::new(0, 40));
    assert_eq!(world.bullets[0].pos, Pos::new(32, -20));
    world.update();
    assert!(world.bullets.is_empty());
}

#[test]
fn a_shot_without_a_turn_goes_where_the_creature_faces() {
    let (mut world, body) = with_player(GameMode::Survival, 1);
    {
        let c = world.creatures.get_mut(&body).unwrap();
        c.pos = Pos::new(20, 32);
        c.dir = Direction::West;
        c.selected_weapon = 1;
    }
    world.control_player(PlayerId(1), Control::Shoot(None)).unwrap();
    world.update();
    assert_eq!(world.bullets.len(), 1);
    assert_eq!(world.bullets[0].direction, Pos::new(-1, 0));
    assert_eq!(world.bullets[0].pos, Pos::new(16, 32));
    assert_eq!(world.particles.get(Pos::new(17, 32)), Some(&Sprite::Custom("bullethor")));
}

#[test]
fn a_shotgun_fires_twenty_bullets() {
    let (mut world, body) = with_player(GameMode::Survival, 1);
    world.creatures.get_mut(&body).unwrap().pos = Pos::new(32, 20);
    world.control_player(PlayerId(1), Control::ShootPrecise(Pos::new(0, -3))).unwrap();
    world.update();
    assert_eq!(world.bullets.len(), 20);
    for b in &world.bullets {
        assert!((b.direction.x).abs() <= 135);
        assert!((b.direction.y + 300).abs() <= 135);
        assert_eq!(b.steps.x + b.steps.y, 5);
        assert_eq!((b.pos.x - 32).abs() + (b.pos.y - 20).abs(), 5);
    }
    assert_eq!(body_of(&world, body).cooldown, Duration(5));
    assert_eq!(body_of(&world, body).dir, Direction::North);
}

#[test]
fn a_gate_opens_from_sanctuary_in_full_health_only() {
    let (mut world, body) = with_player(GameMode::Survival, 1);
    world.creatures.get_mut(&body).unwrap().pos = Pos::new(32, 29);
    assert_eq!(world.ground.get(Pos::new(32, 29)), Some(&Tile::Sanctuary));
    assert_eq!(world.ground.get(Pos::new(32, 28)), Some(&Tile::Gate));
    world.control_player(PlayerId(1), Control::Move(Direction::North)).unwrap();
    world.update();
    let denied = body_of(&world, body);
    assert_eq!(denied.pos, Pos::new(32, 29));
    assert_eq!(denied.dir, Direction::North);
    assert!(denied.health.0 < 100);
    world.creatures.get_mut(&body).unwrap().health = Health(99);
    world.control_player(PlayerId(1), Control::Move(Direction::North)).unwrap();
    world.update();
    assert_eq!(body_of(&world, body).pos, Pos::new(32, 28));
    assert_eq!(body_of(&world, body).health, Health(100));
    world.control_player(PlayerId(1), Control::Shoot(None)).unwrap();
    world.update();
    assert!(world.bullets.is_empty());
    assert_eq!(world.particles.len(), 0);
    assert_eq!(body_of(&world, body).cooldown, Duration(5));
    world.creatures.get_mut(&body).unwrap().cooldown = Duration(0);
    world.control_player(PlayerId(1), Control::Move(Direction::North)).unwrap();
    world.update();
    assert_eq!(body_of(&world, body).pos, Pos::new(32, 27));
    world.control_player(PlayerId(1), Control::Move(Direction::South)).unwrap();
    world.update();
    assert_eq!(body_of(&world, body).pos, Pos::new(32, 27));
}

#[test]
fn walls_water_and_the_edge_cannot_be_entered() {
    let mut world = small_world(vec!["+~.", "#.."], Pos::new(0, 0), GameMode::PvP);
    world.add_player(&PlayerId(1), sprite()).unwrap();
    world.update();
    let body = world.players[0].1.body;
    for dir in vec![Direction::North, Direction::West, Direction::East, Direction::South] {
        world.control_player(PlayerId(1), Control::Move(dir)).unwrap();
        world.update();
        assert_eq!(body_of(&world, body).pos, Pos::new(0, 0));
        assert_eq!(body_of(&world, body).dir, dir);
    }
}

#[test]
fn an_occupied_cell_cannot_be_entered() {
    let mut world = small_world(vec!["+..", "..."], Pos::new(0, 0), GameMode::PvP);
    world.add_player(&PlayerId(1), sprite()).unwrap();
    world.add_player(&PlayerId(2), sprite()).unwrap();
    world.update();
    let first = world.players[0].1.body;
    let second = world.players[1].1.body;
    world.creatures.get_mut(&second).unwrap().pos = Pos::new(1, 0);
    world.control_player(PlayerId(1), Control::Move(Direction::East)).unwrap();
    world.update();
    assert_eq!(body_of(&world, first).pos, Pos::new(0, 0));
    world.control_player(PlayerId(1), Control::Move(Direction::East)).unwrap();
    world.control_player(PlayerId(2), Control::Move(Direction::East)).unwrap();
    world.update();
    assert_eq!(body_of(&world, first).pos, Pos::new(0, 0));
    assert_eq!(body_of(&world, second).pos, Pos::new(2, 0));
    world.control_player(PlayerId(1), Control::Move(Direction::East)).unwrap();
    world.control_player(PlayerId(2), Control::Move(Direction::West)).unwrap();
    world.update();
    assert_eq!(body_of(&world, first).pos, Pos::new(1, 0));
    assert_eq!(body_of(&world, second).pos, Pos::new(2, 0));
}

#[test]
fn suicide_ends_the_body_and_a_new_one_comes() {
    let (mut world, body) = with_player(GameMode::Survival, 1);
    world.creatures.get_mut(&body).unwrap().pos = Pos::new(30, 30);
    world.control_player(PlayerId(1), Control::Suicide).unwrap();
    world.update();
    assert!(!world.creatures.contains_key(&body));
    let fresh = world.players[0].1.body;
    assert!(fresh > body);
    assert_eq!(body_of(&world, fresh).pos, Pos::new(32, 32));
    assert_eq!(body_of(&world, fresh).health, Health(1));
}

#[test]
fn a_body_without_its_player_ends_itself() {
    let (mut world, body) = with_player(GameMode::Survival, 1);
    world.players.clear();
    world.update();
    assert!(!world.creatures.contains_key(&body));
}

#[test]
fn weapons_rotate_on_request() {
    let (mut world, body) = with_player(GameMode::Survival, 1);
    world.control_player(PlayerId(1), Control::PreviousWeapon).unwrap();
    world.update();
    assert_eq!(body_of(&world, body).selected_weapon, 2);
    assert_eq!(body_of(&world, body).cooldown, Duration(0));
    world.control_player(PlayerId(1), Control::NextWeapon).unwrap();
    world.update();
    assert_eq!(body_of(&world, body).selected_weapon, 0);
}

#[test]
fn creatures_rest_on_sanctuary_and_in_pauses() {
    let (mut world, body) = with_player(GameMode::PvP, 1);
    world.update();
    assert_eq!(body_of(&world, body).health, Health(3));
    world.creatures.get_mut(&body).unwrap().pos = Pos::new(32, 20);
    world.update();
    assert_eq!(body_of(&world, body).health, Health(3));
    world.round_state = RoundState::Paused(3);
    world.update();
    assert_eq!(body_of(&world, body).health, Health(5));
    assert_eq!(world.round_state, RoundState::Paused(2));
    let mut pillars = square(GameMode::PillarDefence, 2);
    let key = pillars.creatures.key_at(0);
    pillars.creatures.get_mut(&key).unwrap().health = Health(100);
    pillars.round_state = RoundState::Paused(9);
    pillars.wave = 1;
    pillars.to_spawn = vec![CreatureType::Zombie];
    pillars.update();
    assert_eq!(pillars.creatures.get(&key).unwrap().health, Health(120));
    pillars.round_state = RoundState::Running;
    pillars.time = Timestamp(1);
    pillars.update();
    assert_eq!(pillars.creatures.get(&key).unwrap().health, Health(120));
}

#[test]
fn cooldown_counts_down_before_the_next_action() {
    let (mut world, body) = with_player(GameMode::PvP, 1);
    world.creatures.get_mut(&body).unwrap().cooldown = Duration(2);
    world.control_player(PlayerId(1), Control::Move(Direction::East)).unwrap();
    world.update();
    assert_eq!(body_of(&world, body).pos, Pos::new(32, 32));
    assert_eq!(body_of(&world, body).cooldown, Duration(1));
    world.control_player(PlayerId(1), Control::Move(Direction::East)).unwrap();
    world.update();
    assert_eq!(body_of(&world, body).cooldown, Duration(0));
    world.control_player(PlayerId(1), Control::Move(Direction::East)).unwrap();
    world.update();
    assert_eq!(body_of(&world, body).pos, Pos::new(33, 32));
}

#[test]
fn pillar_defence_is_lost_without_pillars_and_begins_anew() {
    let mut world = square(GameMode::PillarDefence, 3);
    let keys = world.creatures.keys();
    assert_eq!(keys.len(), 4);
    for key in &keys {
        world.creatures.get_mut(key).unwrap().health = Health(0);
    }
    world.update();
    assert_eq!(world.round_state, RoundState::GameOver(50));
    assert_eq!(world.creatures.len(), 0);
    assert_eq!(world.time, Timestamp(1));
    for n in (1..50).rev() {
        world.update();
        assert_eq!(world.round_state, RoundState::GameOver(n));
    }
    assert_eq!(world.time, Timestamp(1));
    world.update();
    assert_eq!(world.round_state, RoundState::Running);
    assert_eq!(world.wave, 0);
    assert_eq!(world.creatures.len(), 4);
    assert!(world.to_spawn.is_empty());
    for (key, pillar) in world.creatures.iter() {
        assert!(!keys.contains(&key));
        assert_eq!(pillar.mind, Mind::Pillar);
        assert_eq!(pillar.health, Health(200));
    }
    assert_eq!(*world.building_distances.get_unchecked(Pos::new(28, 28)), Some(0));
}

#[test]
fn game_over_writes_its_text_and_makes_players_new() {
    let mut world = square(GameMode::PillarDefence, 3);
    world.add_player(&PlayerId(1), sprite()).unwrap();
    world.update();
    world.view();
    assert!(!world.players[0].1.is_new);
    world.round_state = RoundState::GameOver(2);
    world.update();
    assert_eq!(world.round_state, RoundState::GameOver(1));
    assert_eq!(world.particles.len(), 10);
    let origin = world.particles.key_at(0);
    assert!(0 <= origin.x && origin.x < 54 && 0 <= origin.y && origin.y < 64);
    for (i, c) in "GAME_OVER!".chars().enumerate() {
        assert_eq!(world.particles.get(Pos::new(origin.x + i as i64, origin.y)), Some(&Sprite::Letter(c)));
    }
    assert!(!world.players[0].1.is_new);
    world.update();
    assert_eq!(world.round_state, RoundState::Running);
    assert!(world.players[0].1.is_new);
    assert_eq!(world.particles.len(), 0);
    assert!(world.drawing.is_none());
}

#[test]
fn survival_is_lost_when_nobody_is_out_after_the_first_wave() {
    let (mut world, body) = with_player(GameMode::Survival, 1);
    assert_eq!(world.wave, 1);
    assert_eq!(world.round_state, RoundState::Paused(24));
    world.update();
    assert_eq!(world.round_state, RoundState::Paused(23));
    world.wave = 2;
    world.creatures.get_mut(&body).unwrap().pos = Pos::new(32, 20);
    world.update();
    assert_eq!(world.round_state, RoundState::Paused(22));
    world.creatures.get_mut(&body).unwrap().pos = Pos::new(32, 32);
    world.update();
    assert_eq!(world.round_state, RoundState::GameOver(50));
    assert!(!world.round_over() || world.wave > 1);
}

#[test]
fn pvp_has_no_waves_and_is_never_lost() {
    let (mut world, _) = with_player(GameMode::PvP, 1);
    for _ in 0..40 {
        world.update();
        assert_eq!(world.round_state, RoundState::Running);
        assert_eq!(world.wave, 0);
        assert!(world.to_spawn.is_empty());
        assert!(!world.round_over());
    }
    assert_eq!(world.creatures.len(), 1);
    assert_eq!(world.time, Timestamp(41));
}

#[test]
fn a_killed_monster_may_drop_health_for_a_player_to_pick_up() {
    let mut drops = 0;
    let mut picked = 0;
    for seed in 0..300 {
        let (mut world, body) = with_player(GameMode::PvP, seed);
        let mut zombie = Creature::create_creature(CreatureType::Zombie, Pos::new(32, 31), &mut world.dice);
        zombie.health = Health(0);
        world.creatures.insert(zombie);
        world.update();
        assert_eq!(world.creatures.len(), 1);
        if world.items.len() == 0 {
            continue;
        }
        drops += 1;
        assert_eq!(world.items.len(), 1);
        assert_eq!(world.items.get(Pos::new(32, 31)), Some(&Item::Health));
        if picked < 5 {
            world.control_player(PlayerId(1), Control::Move(Direction::North)).unwrap();
            world.update();
            let c = body_of(&world, body);
            assert_eq!(c.pos, Pos::new(32, 31));
            assert_eq!(c.health, Health(100));
            assert_eq!(world.items.len(), 0);
            picked += 1;
        }
    }
    assert!(drops >= 10 && drops <= 60, "{} drops", drops);
    assert_eq!(picked, 5);
}

#[test]
fn monsters_and_dead_team_players_drop_by_the_rules() {
    let mut drops = 0;
    for seed in 0..100 {
        let (mut world, body) = with_player(GameMode::Survival, seed);
        world.creatures.get_mut(&body).unwrap().health = Health(0);
        world.update();
        drops += world.items.len();
    }
    assert_eq!(drops, 0);
    let mut most = 0;
    for seed in 0..40 {
        let (mut world, _) = with_player(GameMode::PvP, seed);
        for i in 0..60 {
            let mut zombie = Creature::create_creature(CreatureType::Zombie, Pos::new(i, 5), &mut world.dice);
            zombie.health = Health(0);
            world.creatures.insert(zombie);
        }
        world.update();
        assert!(world.items.len() <= 2);
        if world.items.len() > most {
            most = world.items.len();
        }
    }
    assert_eq!(most, 2);
}

#[test]
fn only_a_player_picks_items_up() {
    let (mut world, _) = with_player(GameMode::PvP, 4);
    let mut vargr = Creature::create_creature(CreatureType::Vargr, Pos::new(10, 10), &mut world.dice);
    vargr.mind = Mind::BloodThirst(battilde::util::Percentage(100));
    let key = world.creatures.insert(vargr);
    for p in vec![Pos::new(9, 10), Pos::new(11, 10), Pos::new(10, 9), Pos::new(10, 11)] {
        world.items.insert(p, Item::Health);
    }
    world.creatures.get_mut(&key).unwrap().health = Health(10);
    world.update();
    let moved = world.creatures.get(&key).unwrap();
    assert_eq!((moved.pos.x - 10).abs() + (moved.pos.y - 10).abs(), 1);
    assert_eq!(moved.health, Health(10));
    assert_eq!(world.items.len(), 4);
}

#[test]
fn a_zombie_chases_a_player_who_is_out() {
    let (mut world, body) = with_player(GameMode::PvP, 6);
    world.creatures.get_mut(&body).unwrap().pos = Pos::new(32, 40);
    world.creatures.get_mut(&body).unwrap().health = Health(100);
    let zombie = Creature::create_creature(CreatureType::Zombie, Pos::new(0, 0), &mut world.dice);
    let key = world.creatures.insert(zombie);
    let player_pos = Pos::new(32, 40);
    let mut last = Pos::new(0, 0).distance_to(player_pos);
    let first = last;
    let mut decreased = 0;
    let mut increased = 0;
    for _ in 0..64 {
        world.update();
        let now = world.creatures.get(&key).unwrap().pos.distance_to(player_pos);
        if now < last {
            decreased += 1;
        }
        if now > last {
            increased += 1;
        }
        last = now;
    }
    assert!(decreased >= 30, "{} steps nearer", decreased);
    assert!(increased <= 1);
    assert!(last <= first - 29);
}

#[test]
fn a_zombie_leaves_a_player_on_sanctuary_alone() {
    let (mut world, _) = with_player(GameMode::PvP, 6);
    let mut zombie = Creature::create_creature(CreatureType::Zombie, Pos::new(32, 33), &mut world.dice);
    zombie.cooldown = Duration(0);
    let key = world.creatures.insert(zombie);
    world.update();
    assert!(world.bullets.is_empty());
    assert_eq!(world.particles.len(), 0);
    let z = world.creatures.get(&key).unwrap();
    assert_eq!(z.pos, Pos::new(32, 33));
    assert_eq!(z.dir, Direction::North);
    assert_eq!(z.cooldown, Duration(1));
}

#[test]
fn a_zombie_bites_a_player_next_to_it() {
    let (mut world, body) = with_player(GameMode::PvP, 6);
    world.creatures.get_mut(&body).unwrap().pos = Pos::new(20, 20);
    world.creatures.get_mut(&body).unwrap().health = Health(50);
    let mut zombie = Creature::create_creature(CreatureType::Zombie, Pos::new(21, 20), &mut world.dice);
    zombie.cooldown = Duration(0);
    let key = world.creatures.insert(zombie);
    world.update();
    assert_eq!(body_of(&world, body).health, Health(40));
    assert_eq!(world.creatures.get(&key).unwrap().pos, Pos::new(21, 20));
    assert_eq!(world.creatures.get(&key).unwrap().cooldown, Duration(2));
    assert_eq!(world.particles.get(Pos::new(20, 20)), Some(&Sprite::Custom("bite")));
    assert!(world.bullets.is_empty());
}

#[test]
fn a_troll_goes_for_pillars_and_not_for_players() {
    let mut world = square(GameMode::PillarDefence, 8);
    world.add_player(&PlayerId(1), sprite()).unwrap();
    world.update();
    let body = world.players[0].1.body;
    world.creatures.get_mut(&body).unwrap().pos = Pos::new(40, 41);
    world.creatures.get_mut(&body).unwrap().health = Health(100);
    let mut troll = Creature::create_creature(CreatureType::Troll, Pos::new(40, 40), &mut world.dice);
    troll.cooldown = Duration(0);
    let key = world.creatures.insert(troll);
    let start = *world.building_distances.get_unchecked(Pos::new(40, 40));
    assert_eq!(start, Some(8));
    world.update();
    assert_eq!(body_of(&world, body).health, Health(100));
    let pos = world.creatures.get(&key).unwrap().pos;
    assert_eq!(*world.building_distances.get_unchecked(pos), Some(7));
    world.creatures.get_mut(&key).unwrap().pos = Pos::new(37, 37);
    world.creatures.get_mut(&key).unwrap().cooldown = Duration(0);
    let pillar_key = world.creatures.key_at(0);
    assert_eq!(world.creatures.get(&pillar_key).unwrap().pos, Pos::new(36, 36));
    let before = world.creatures.get(&pillar_key).unwrap().health.0;
    world.update();
    assert_eq!(world.creatures.get(&key).unwrap().pos, Pos::new(37, 37));
    assert!(world.creatures.get(&pillar_key).unwrap().health.0 <= before);
}

#[test]
fn the_text_of_a_lost_round_is_written_from_its_origin() {
    let mut world = square(GameMode::PvP, 1);
    world.particles.insert(Pos::new(5, 7), Sprite::Custom("bullet"));
    world.particles.insert(Pos::new(0, 0), Sprite::Custom("bite"));
    world.write_game_over(Pos::new(3, 7));
    let text = vec!['G', 'A', 'M', 'E', '_', 'O', 'V', 'E', 'R', '!'];
    for (i, c) in text.iter().enumerate() {
        assert_eq!(world.particles.get(Pos::new(3 + i as i64, 7)), Some(&Sprite::Letter(*c)));
    }
    assert_eq!(world.particles.get(Pos::new(0, 0)), Some(&Sprite::Custom("bite")));
    assert_eq!(world.particles.get(Pos::new(2, 7)), None);
    assert_eq!(world.particles.get(Pos::new(13, 7)), None);
    assert_eq!(world.particles.len(), 11);
    world.write_game_over(Pos::new(60, 63));
    assert_eq!(world.particles.get(Pos::new(69, 63)), Some(&Sprite::Letter('!')));
}

#[test]
fn the_dead_drop_by_their_rolls_up_to_the_limit() {
    let (mut world, _) = with_player(GameMode::PvP, 1);
    let mut dead = Vec::new();
    for x in 0..6 {
        let mut c = Creature::create_creature(CreatureType::Zombie, Pos::new(x, 3), &mut world.dice);
        c.health = Health(0);
        dead.push(c);
    }
    let mut team = Creature::new_player(PlayerId(5), sprite(), Pos::new(9, 3), false);
    team.health = Health(0);
    dead.push(team);
    let mut own = Creature::new_player(PlayerId(6), sprite(), Pos::new(10, 3), true);
    own.health = Health(0);
    dead.insert(0, own);
    world.drop_items_with(&dead, &vec![1, 0, 9, 0, 0, 0, 0, 0]);
    assert_eq!(world.items.len(), 2);
    assert_eq!(world.items.get(Pos::new(0, 3)), Some(&Item::Health));
    assert_eq!(world.items.get(Pos::new(2, 3)), Some(&Item::Health));
    assert_eq!(world.items.get(Pos::new(10, 3)), None);
    world.items.clear();
    world.drop_items_with(&dead, &vec![0, 1, 1, 1, 1, 1, 1, 0]);
    assert_eq!(world.items.len(), 1);
    assert_eq!(world.items.get(Pos::new(10, 3)), Some(&Item::Health));
    assert_eq!(world.items.get(Pos::new(9, 3)), None);
    world.drop_items_with(&dead, &vec![0, 0, 1, 1, 1, 1, 1, 1]);
    assert_eq!(world.items.len(), 2);
    world.drop_items_with(&dead, &vec![0, 0, 0, 0, 0, 0, 0, 0]);
    assert_eq!(world.items.len(), 2);
    world.add_player(&PlayerId(2), sprite()).unwrap();
    world.add_player(&PlayerId(3), sprite()).unwrap();
    world.drop_items_with(&dead, &vec![0, 0, 0, 0, 0, 0, 0, 0]);
    assert_eq!(world.items.len(), 4);
}

#[test]
fn drops_stop_at_one_more_item_than_players() {
    let mut world = square(GameMode::PvP, 1);
    assert_eq!(world.nplayers(), 0);
    let mut dead = Vec::new();
    for x in 0..3 {
        let mut c = Creature::create_creature(CreatureType::Zombie, Pos::new(x, 3), &mut world.dice);
        c.health = Health(0);
        dead.push(c);
    }
    world.drop_items_with(&dead, &vec![0, 0, 0]);
    assert_eq!(world.items.len(), 1);
    assert_eq!(world.items.get(Pos::new(0, 3)), Some(&Item::Health));
    assert_eq!(world.items.get(Pos::new(1, 3)), None);
    world.drop_items_with(&dead, &vec![0, 0, 0]);
    assert_eq!(world.items.len(), 1);
    world.add_player(&PlayerId(1), sprite()).unwrap();
    world.drop_items_with(&dead, &vec![1, 0, 0]);
    assert_eq!(world.items.len(), 2);
    assert_eq!(world.items.get(Pos::new(1, 3)), Some(&Item::Health));
    assert_eq!(world.items.get(Pos::new(2, 3)), None);
}

#[test]
fn a_new_world_has_room_for_its_first_tick() {
    for mode in vec![GameMode::Survival, GameMode::PillarDefence, GameMode::PvP] {
        let mut world = square(mode, 2);
        assert!(world.ready());
        assert_eq!(world.creatures.last_key(), world.creatures.len() + 1);
        world.update();
        assert_eq!(world.time, Timestamp(1));
    }
    let world = small_world(vec!["....", "...."], Pos::new(1, 1), GameMode::PvP);
    assert!(world.ready());
    assert_eq!(world.creatures.last_key(), 1);
}
