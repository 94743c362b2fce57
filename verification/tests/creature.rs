use battilde::creature::{healed_value, Alignment, Creature, CreatureType, Health, Mind};
use battilde::dice::Dice;
use battilde::playerid::PlayerId;
use battilde::pos::{Direction, Distance, Pos};
use battilde::sprite::Sprite;
use battilde::timestamp::Duration;
use battilde::util::Percentage;
use battilde::weapon::Weapon;

fn player() -> Creature {
    Creature::new_player(PlayerId(7), Sprite::Player("g", 'x'), Pos::new(3, 4), false)
}

#[test]
fn new_player_is_barely_alive_and_armed() {
    let c = player();
    assert_eq!(c.mind, Mind::Player(PlayerId(7)));
    assert_eq!(c.pos, Pos::new(3, 4));
    assert_eq!(c.dir, Direction::North);
    assert_eq!(c.health, Health(1));
    assert_eq!(c.max_health, Health(100));
    assert_eq!(c.cooldown, Duration(0));
    assert_eq!(c.walk_cooldown, Duration(0));
    assert_eq!(c.sprite, Sprite::Player("g", 'x'));
    assert_eq!(c.alignment, Alignment::Players);
    assert_eq!(c.weapons, vec![(Weapon::shotgun(), true), (Weapon::rifle(), true), (Weapon::smg(), true)]);
    assert_eq!(c.selected_weapon, 0);
    assert!(!c.is_building);
    assert!(c.is_player());
    assert!(!c.is_dead());
}

#[test]
fn pvp_player_is_on_its_own_side() {
    let c = Creature::new_player(PlayerId(7), Sprite::Player("g", 'x'), Pos::new(3, 4), true);
    assert_eq!(c.alignment, Alignment::Player(PlayerId(7)));
    assert_ne!(c.alignment, Alignment::Player(PlayerId(8)));
    assert_ne!(c.alignment, Alignment::Players);
}

#[test]
fn pillar_is_a_building_without_weapons() {
    let c = Creature::new_pillar(Pos::new(1, 1));
    assert_eq!(c.mind, Mind::Pillar);
    assert_eq!(c.health, Health(200));
    assert_eq!(c.max_health, Health(200));
    assert_eq!(c.cooldown, Duration(1));
    assert_eq!(c.sprite, Sprite::Custom("pillar"));
    assert_eq!(c.alignment, Alignment::Players);
    assert!(c.is_building);
    assert!(c.weapons.is_empty());
    assert_eq!(c.weapon(), None);
    assert_eq!(c.range(), Distance(0));
    assert!(!c.is_player());
}

#[test]
fn monsters_follow_their_tables() {
    let mut dice = Dice::seeded(1);
    let pos = Pos::new(9, 9);
    let zombie = Creature::new_zombie(pos, &mut dice);
    assert_eq!(zombie.mind, Mind::BloodThirst(Percentage(0)));
    assert_eq!(zombie.health, Health(20));
    assert_eq!(zombie.max_health, Health(20));
    assert_eq!(zombie.walk_cooldown, Duration(1));
    assert_eq!(zombie.sprite, Sprite::Custom("zombie"));
    assert_eq!(zombie.weapons, vec![(Weapon::bite(Health(10), Duration(2)), true)]);
    assert_eq!(zombie.alignment, Alignment::Monsters);
    assert_eq!(zombie.range(), Distance(1));

    let ymp = Creature::new_ymp(pos, &mut dice);
    assert_eq!(ymp.health, Health(20));
    assert_eq!(ymp.walk_cooldown, Duration(2));
    assert_eq!(ymp.weapons, vec![(Weapon::cast(Health(10), Distance(30), Duration(2)), true)]);
    assert_eq!(ymp.range(), Distance(30));

    let troll = Creature::new_troll(pos, &mut dice);
    assert_eq!(troll.mind, Mind::Destroyer);
    assert_eq!(troll.health, Health(100));
    assert_eq!(troll.walk_cooldown, Duration(4));
    assert_eq!(troll.weapons, vec![(Weapon::cast(Health(50), Distance(2), Duration(4)), true)]);

    let worm = Creature::new_worm(pos, &mut dice);
    assert_eq!(worm.mind, Mind::Destroyer);
    assert_eq!(worm.health, Health(12));
    assert_eq!(worm.walk_cooldown, Duration(3));
    assert_eq!(worm.sprite, Sprite::Custom("worm"));

    let xiangliu = Creature::new_xiangliu(pos, &mut dice);
    assert_eq!(xiangliu.health, Health(50));
    assert_eq!(xiangliu.walk_cooldown, Duration(1));
    assert_eq!(
        xiangliu.weapons,
        vec![(Weapon::spit(Health(10), Distance(16), 9, Percentage(60), Duration(4)), true)]
    );

    let vargr = Creature::new_vargr(pos, &mut dice);
    assert_eq!(vargr.mind, Mind::BloodThirst(Percentage(20)));
    assert_eq!(vargr.health, Health(50));
    assert_eq!(vargr.walk_cooldown, Duration(0));
    assert_eq!(vargr.cooldown, Duration(0));
    assert_eq!(vargr.weapons, vec![(Weapon::bite(Health(30), Duration(10)), true)]);
}

#[test]
fn monster_first_cooldown_is_rolled_within_walk_cooldown() {
    let mut seen = vec![false; 5];
    for seed in 0..200 {
        let mut dice = Dice::seeded(seed);
        let troll = Creature::new_troll(Pos::new(0, 0), &mut dice);
        assert!(0 <= troll.cooldown.0 && troll.cooldown.0 <= 4);
        seen[troll.cooldown.0 as usize] = true;
    }
    assert_eq!(seen, vec![true; 5]);
}

#[test]
fn create_creature_makes_the_kind_asked_for() {
    let mut dice = Dice::seeded(3);
    let pos = Pos::new(2, 2);
    assert_eq!(Creature::create_creature(CreatureType::Zombie, pos, &mut dice).sprite, Sprite::Custom("zombie"));
    assert_eq!(Creature::create_creature(CreatureType::Ymp, pos, &mut dice).sprite, Sprite::Custom("ymp"));
    assert_eq!(Creature::create_creature(CreatureType::Worm, pos, &mut dice).sprite, Sprite::Custom("worm"));
    assert_eq!(Creature::create_creature(CreatureType::Troll, pos, &mut dice).sprite, Sprite::Custom("troll"));
    assert_eq!(Creature::create_creature(CreatureType::Vargr, pos, &mut dice).sprite, Sprite::Custom("vargr"));
    assert_eq!(
        Creature::create_creature(CreatureType::Xiangliu, pos, &mut dice).sprite,
        Sprite::Custom("xiangliu")
    );
    assert_eq!(Creature::create_creature(CreatureType::Pillar, pos, &mut dice), Creature::new_pillar(pos));
    assert_eq!(
        Creature::create_creature(CreatureType::Player, pos, &mut dice),
        Creature::new_player(PlayerId(0), Sprite::Custom("player_g:X"), pos, true)
    );
}

#[test]
fn heal_stops_at_max_health() {
    let mut c = player();
    c.heal(Health(2));
    assert_eq!(c.health, Health(3));
    c.heal(Health(96));
    assert_eq!(c.health, Health(99));
    c.heal(Health(2));
    assert_eq!(c.health, Health(100));
    assert!(c.has_full_health());
    c.heal(Health(i64::MAX));
    assert_eq!(c.health, Health(100));
}

#[test]
fn heal_never_lowers_health() {
    let mut c = player();
    c.health = Health(150);
    c.heal(Health(5));
    assert_eq!(c.health, Health(150));
    c.health = Health(50);
    c.heal(Health(-5));
    assert_eq!(c.health, Health(50));
    c.heal(Health(0));
    assert_eq!(c.health, Health(50));
    assert_eq!(healed_value(10, 20, 5), 15);
    assert_eq!(healed_value(10, 20, 15), 20);
    assert_eq!(healed_value(-10, 20, 5), -5);
    assert_eq!(healed_value(i64::MAX - 1, i64::MAX, 5), i64::MAX);
}

#[test]
fn damage_and_death() {
    let mut c = player();
    c.health = Health(30);
    c.damage(Health(25));
    assert_eq!(c.health, Health(5));
    assert!(!c.is_dead());
    assert!(!c.has_full_health());
    c.damage(Health(5));
    assert_eq!(c.health, Health(0));
    assert!(c.is_dead());
    c.damage(Health(7));
    assert_eq!(c.health, Health(-7));
    assert!(c.is_dead());
}

#[test]
fn kill_sets_health_below_zero() {
    let mut c = player();
    c.kill();
    assert_eq!(c.health, Health(-1));
    assert!(c.is_dead());
}

#[test]
fn weapon_is_the_selected_available_slot() {
    let mut c = player();
    assert_eq!(c.weapon(), Some(&Weapon::shotgun()));
    assert_eq!(c.range(), Distance(14));
    c.selected_weapon = 1;
    assert_eq!(c.weapon(), Some(&Weapon::rifle()));
    assert_eq!(c.range(), Distance(40));
    c.weapons[1].1 = false;
    assert_eq!(c.weapon(), None);
    assert_eq!(c.range(), Distance(0));
    c.selected_weapon = 9;
    assert_eq!(c.weapon(), None);
}

fn rotating() -> Creature {
    let mut c = player();
    c.weapons = vec![
        (Weapon::rifle(), true),
        (Weapon::smg(), true),
        (Weapon::bite(Health(0), Duration(0)), false),
        (Weapon::smg(), true),
        (Weapon::rifle(), true),
    ];
    c.selected_weapon = 1;
    c
}

#[test]
fn next_weapon_skips_slots_that_are_off() {
    let mut c = rotating();
    c.select_next_weapon();
    assert_eq!(c.selected_weapon, 3);
    c.select_next_weapon();
    assert_eq!(c.selected_weapon, 4);
    c.select_next_weapon();
    assert_eq!(c.selected_weapon, 0);
}

#[test]
fn previous_weapon_skips_slots_that_are_off_and_wraps() {
    let mut c = rotating();
    c.selected_weapon = 3;
    c.select_previous_weapon();
    assert_eq!(c.selected_weapon, 1);
    c.select_previous_weapon();
    assert_eq!(c.selected_weapon, 0);
    c.select_previous_weapon();
    assert_eq!(c.selected_weapon, 4);
}

#[test]
fn rotation_stays_where_nothing_else_is_available() {
    let mut c = rotating();
    for slot in c.weapons.iter_mut() {
        slot.1 = false;
    }
    c.select_next_weapon();
    assert_eq!(c.selected_weapon, 1);
    c.select_previous_weapon();
    assert_eq!(c.selected_weapon, 1);
    c.weapons[1].1 = true;
    c.select_next_weapon();
    assert_eq!(c.selected_weapon, 1);
    let mut pillar = Creature::new_pillar(Pos::new(0, 0));
    pillar.select_next_weapon();
    pillar.select_previous_weapon();
    assert_eq!(pillar.selected_weapon, 0);
}
