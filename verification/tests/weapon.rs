use battilde::creature::{Alignment, Health};
use battilde::dice::Dice;
use battilde::pos::{Distance, Pos};
use battilde::sprite::Sprite;
use battilde::timestamp::Duration;
use battilde::util::Percentage;
use battilde::weapon::{octant_move_y, quadrant_move_y, Ammo, AmmoSprites, Bullet, Weapon};

fn bullet(direction: Pos, steps: Pos, ammo: Ammo) -> Bullet {
    Bullet { direction, steps, pos: Pos::new(10, 10), alignment: Alignment::Players, ammo }
}

#[test]
fn weapons_follow_their_tables() {
    let rifle = Weapon::rifle();
    assert_eq!(rifle.name, "Rifle");
    assert_eq!(rifle.get_cooldown(), Duration(4));
    assert_eq!(rifle.get_range(), Distance(40));
    assert_eq!(rifle.nbullets, 1);
    assert_eq!(rifle.spread, Percentage(0));
    assert_eq!(rifle.ammo.damage, Health(25));
    assert_eq!(rifle.ammo.speed, 4);
    assert!(!rifle.ammo.spreading);
    assert_eq!(
        rifle.ammo.sprites,
        AmmoSprites::Two(Sprite::Custom("bulletvert"), Sprite::Custom("bullethor"))
    );

    let smg = Weapon::smg();
    assert_eq!(smg.name, "SMG");
    assert_eq!(smg.get_cooldown(), Duration(0));
    assert_eq!(smg.get_range(), Distance(24));
    assert_eq!(smg.ammo.damage, Health(10));
    assert_eq!(smg.ammo.speed, 3);
    assert!(smg.ammo.spreading);

    let shotgun = Weapon::shotgun();
    assert_eq!(shotgun.name, "Shotgun");
    assert_eq!(shotgun.get_cooldown(), Duration(5));
    assert_eq!(shotgun.get_range(), Distance(14));
    assert_eq!(shotgun.nbullets, 20);
    assert_eq!(shotgun.spread, Percentage(45));
    assert_eq!(shotgun.ammo.damage, Health(5));
    assert_eq!(shotgun.ammo.speed, 5);

    let bite = Weapon::bite(Health(10), Duration(2));
    assert_eq!(bite.name, "Bite");
    assert_eq!(bite.get_range(), Distance(1));
    assert_eq!(bite.ammo.speed, 2);
    assert_eq!(bite.ammo.sprites, AmmoSprites::One(Sprite::Custom("bite")));

    let cast = Weapon::cast(Health(50), Distance(2), Duration(4));
    assert_eq!(cast.name, "Cast");
    assert_eq!(cast.ammo.damage, Health(50));
    assert_eq!(cast.get_range(), Distance(2));
    assert_eq!(cast.ammo.speed, 1);
    assert_eq!(cast.ammo.sprites, AmmoSprites::One(Sprite::Custom("bullet")));

    let spit = Weapon::spit(Health(10), Distance(16), 9, Percentage(60), Duration(4));
    assert_eq!(spit.name, "Spit");
    assert_eq!(spit.nbullets, 9);
    assert_eq!(spit.spread, Percentage(60));
    assert_eq!(spit.ammo.sprites, AmmoSprites::One(Sprite::Custom("spit")));
}

#[test]
fn a_weapon_without_spread_fires_straight() {
    let mut dice = Dice::seeded(5);
    let rifle = Weapon::rifle();
    let bullets = rifle.shoot(Pos::new(3, 4), Pos::new(0, -1), Alignment::Players, &mut dice);
    assert_eq!(
        bullets,
        vec![Bullet {
            direction: Pos::new(0, -1),
            steps: Pos::new(0, 0),
            pos: Pos::new(3, 4),
            alignment: Alignment::Players,
            ammo: rifle.ammo,
        }]
    );
}

#[test]
fn scatter_is_a_hundred_times_the_aim_and_the_jitter() {
    assert_eq!(Weapon::scatter(Pos::new(0, -1), Pos::new(0, 0)), Pos::new(0, -100));
    assert_eq!(Weapon::scatter(Pos::new(3, -2), Pos::new(-45, 45)), Pos::new(255, -155));
}

#[test]
fn a_weapon_with_spread_scatters_within_its_deviation() {
    let mut dice = Dice::seeded(11);
    let shotgun = Weapon::shotgun();
    let aim = Pos::new(2, -1);
    let bullets = shotgun.shoot(Pos::new(8, 8), aim, Alignment::Monsters, &mut dice);
    assert_eq!(bullets.len(), 20);
    let deviation = 45 * 3;
    let mut directions = Vec::new();
    for b in &bullets {
        assert_eq!(b.pos, Pos::new(8, 8));
        assert_eq!(b.steps, Pos::new(0, 0));
        assert_eq!(b.alignment, Alignment::Monsters);
        assert_eq!(b.ammo, shotgun.ammo);
        assert!((b.direction.x - 200).abs() <= deviation);
        assert!((b.direction.y + 100).abs() <= deviation);
        if !directions.contains(&b.direction) {
            directions.push(b.direction);
        }
    }
    assert!(directions.len() > 10);
}

#[test]
fn a_weapon_without_bullets_fires_none() {
    let mut dice = Dice::seeded(5);
    let empty = Weapon::spit(Health(1), Distance(3), 0, Percentage(10), Duration(1));
    assert!(empty.shoot(Pos::new(0, 0), Pos::new(1, 0), Alignment::Players, &mut dice).is_empty());
}

#[test]
fn octant_rule_steps_along_y_when_y_lags() {
    let dir = Pos::new(2, 1);
    assert!(!octant_move_y(dir, Pos::new(0, 0)));
    assert!(!octant_move_y(dir, Pos::new(1, 0)));
    assert!(octant_move_y(dir, Pos::new(2, 0)));
    assert!(!octant_move_y(dir, Pos::new(2, 1)));
    assert!(!octant_move_y(dir, Pos::new(3, 1)));
    assert!(octant_move_y(dir, Pos::new(4, 1)));
    assert!(!octant_move_y(Pos::new(5, 0), Pos::new(100, 0)));
}

#[test]
fn quadrant_rule_mirrors_steep_directions() {
    let dir = Pos::new(1, 2);
    assert!(quadrant_move_y(dir, Pos::new(0, 0), false));
    assert!(quadrant_move_y(dir, Pos::new(0, 1), false));
    assert!(!quadrant_move_y(dir, Pos::new(0, 2), false));
    assert!(quadrant_move_y(dir, Pos::new(1, 2), false));
    assert!(quadrant_move_y(Pos::new(0, 5), Pos::new(0, 100), true));
    assert!(!quadrant_move_y(Pos::new(3, 3), Pos::new(0, 0), false));
    assert!(quadrant_move_y(Pos::new(3, 3), Pos::new(0, 0), true));
}

#[test]
fn movement_steps_one_cell_along_the_due_axis() {
    let ammo = Weapon::rifle().ammo;
    assert_eq!(bullet(Pos::new(0, -1), Pos::new(0, 0), ammo).movement(false), Pos::new(0, -1));
    assert_eq!(bullet(Pos::new(-7, 0), Pos::new(3, 0), ammo).movement(true), Pos::new(-1, 0));
    assert_eq!(bullet(Pos::new(-2, 1), Pos::new(1, 0), ammo).movement(false), Pos::new(-1, 0));
    assert_eq!(bullet(Pos::new(-2, 1), Pos::new(2, 0), ammo).movement(false), Pos::new(0, 1));
    assert_eq!(bullet(Pos::new(4, -4), Pos::new(0, 0), ammo).movement(true), Pos::new(0, -1));
    assert_eq!(bullet(Pos::new(4, -4), Pos::new(0, 0), ammo).movement(false), Pos::new(1, 0));
    assert_eq!(bullet(Pos::new(0, 0), Pos::new(0, 0), ammo).movement(false), Pos::new(0, 0));
    assert_eq!(bullet(Pos::new(0, 0), Pos::new(0, 0), ammo).movement(true), Pos::new(0, 0));
}

#[test]
fn sideways_happens_after_the_first_step_only() {
    let ammo = Weapon::smg().ammo;
    let flat = bullet(Pos::new(1, 0), Pos::new(1, 0), ammo);
    assert_eq!(flat.sideways(Some(true)), Pos::new(0, 1));
    assert_eq!(flat.sideways(Some(false)), Pos::new(0, -1));
    assert_eq!(flat.sideways(None), Pos::new(0, 0));
    let steep = bullet(Pos::new(1, -3), Pos::new(0, 1), ammo);
    assert_eq!(steep.sideways(Some(true)), Pos::new(1, 0));
    assert_eq!(steep.sideways(Some(false)), Pos::new(-1, 0));
    assert_eq!(bullet(Pos::new(1, 0), Pos::new(0, 0), ammo).sideways(Some(true)), Pos::new(0, 0));
    assert_eq!(bullet(Pos::new(1, 0), Pos::new(2, 0), ammo).sideways(Some(true)), Pos::new(0, 0));
}

#[test]
fn do_move_advances_a_straight_bullet() {
    let mut dice = Dice::seeded(9);
    let mut b = bullet(Pos::new(0, -1), Pos::new(0, 0), Weapon::rifle().ammo);
    b.do_move(&mut dice);
    assert_eq!(b.pos, Pos::new(10, 9));
    assert_eq!(b.steps, Pos::new(0, 1));
    b.do_move(&mut dice);
    b.do_move(&mut dice);
    assert_eq!(b.pos, Pos::new(10, 7));
    assert_eq!(b.steps, Pos::new(0, 3));
    assert_eq!(b.direction, Pos::new(0, -1));
}

#[test]
fn do_move_follows_the_line_of_a_slanted_bullet() {
    let mut dice = Dice::seeded(9);
    let mut b = bullet(Pos::new(200, 100), Pos::new(0, 0), Weapon::shotgun().ammo);
    let mut path = Vec::new();
    for _ in 0..6 {
        b.do_move(&mut dice);
        path.push(b.pos);
    }
    assert_eq!(
        path,
        vec![
            Pos::new(11, 10),
            Pos::new(12, 10),
            Pos::new(12, 11),
            Pos::new(13, 11),
            Pos::new(14, 11),
            Pos::new(14, 12)
        ]
    );
    assert_eq!(b.steps, Pos::new(4, 2));
}

#[test]
fn a_spreading_bullet_sways_at_most_one_cell() {
    let mut swayed = 0;
    for seed in 0..100 {
        let mut dice = Dice::seeded(seed);
        let mut b = bullet(Pos::new(1, 0), Pos::new(0, 0), Weapon::smg().ammo);
        for _ in 0..5 {
            b.do_move(&mut dice);
        }
        assert_eq!(b.pos.x, 15);
        assert_eq!(b.steps, Pos::new(5, 0));
        assert!((b.pos.y - 10).abs() <= 1);
        if b.pos.y != 10 {
            swayed += 1;
        }
    }
    assert!(swayed > 20 && swayed < 80);
}

#[test]
fn a_bullet_without_direction_stays() {
    let mut dice = Dice::seeded(2);
    let mut b = bullet(Pos::new(0, 0), Pos::new(0, 0), Weapon::smg().ammo);
    b.do_move(&mut dice);
    b.do_move(&mut dice);
    assert_eq!(b.pos, Pos::new(10, 10));
    assert_eq!(b.steps, Pos::new(0, 0));
}

#[test]
fn out_of_range_is_beyond_the_range() {
    let ammo = Weapon::bite(Health(1), Duration(1)).ammo;
    assert!(!bullet(Pos::new(1, 0), Pos::new(0, 0), ammo).out_of_range());
    assert!(!bullet(Pos::new(1, 0), Pos::new(1, 0), ammo).out_of_range());
    assert!(bullet(Pos::new(1, 0), Pos::new(1, 1), ammo).out_of_range());
    assert!(bullet(Pos::new(1, 0), Pos::new(2, 0), ammo).out_of_range());
}

#[test]
fn bullet_sprite_tells_upright_from_level() {
    let two = Weapon::rifle().ammo;
    assert_eq!(bullet(Pos::new(0, -1), Pos::new(0, 0), two).sprite(), Sprite::Custom("bulletvert"));
    assert_eq!(bullet(Pos::new(1, 0), Pos::new(0, 0), two).sprite(), Sprite::Custom("bullethor"));
    assert_eq!(bullet(Pos::new(-3, 2), Pos::new(0, 0), two).sprite(), Sprite::Custom("bullethor"));
    assert_eq!(bullet(Pos::new(2, -2), Pos::new(0, 0), two).sprite(), Sprite::Custom("bulletvert"));
    let one = Weapon::bite(Health(1), Duration(1)).ammo;
    assert_eq!(bullet(Pos::new(5, 0), Pos::new(0, 0), one).sprite(), Sprite::Custom("bite"));
}

#[test]
fn out_of_range_counts_steps_either_way() {
    let ammo = Weapon::bite(Health(1), Duration(1)).ammo;
    assert!(!bullet(Pos::new(1, 0), Pos::new(-1, 0), ammo).out_of_range());
    assert!(!bullet(Pos::new(1, 0), Pos::new(0, -1), ammo).out_of_range());
    assert!(bullet(Pos::new(1, 0), Pos::new(-1, 1), ammo).out_of_range());
    assert!(bullet(Pos::new(1, 0), Pos::new(-1, -1), ammo).out_of_range());
    assert!(bullet(Pos::new(1, 0), Pos::new(0, -2), ammo).out_of_range());
}
