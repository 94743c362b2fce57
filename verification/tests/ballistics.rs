use battilde::ballistics::{draw_luck, fly_with, hurt, impact, Impact};
use battilde::creature::{Alignment, Creature, CreatureType, Health};
use battilde::dice::Dice;
use battilde::grid::Grid;
use battilde::holder::Holder;
use battilde::mapgen::MapTemplate;
use battilde::playerid::PlayerId;
use battilde::pos::Pos;
use battilde::posmap::PosMap;
use battilde::sprite::Sprite;
use battilde::tile::Tile;
use battilde::weapon::{Bullet, Luck, Weapon};

fn tiles(lines: Vec<&str>) -> Grid<Tile> {
    let rows: Vec<String> = lines.iter().map(|l| l.to_string()).collect();
    let size = Pos::new(lines[0].len() as i64, lines.len() as i64);
    MapTemplate::from_rows(size, &rows, Vec::new(), Pos::new(0, 0), vec![Pos::new(0, 0)]).unwrap().ground
}

fn bullet(pos: Pos, direction: Pos, weapon: Weapon) -> Bullet {
    Bullet { direction, steps: Pos::new(0, 0), pos, alignment: Alignment::Players, ammo: weapon.ammo }
}

fn zombie(pos: Pos, health: i64) -> Creature {
    let mut dice = Dice::seeded(0);
    let mut c = Creature::create_creature(CreatureType::Zombie, pos, &mut dice);
    c.health = Health(health);
    c
}

fn calm() -> Vec<Luck> {
    vec![Luck { sway: None, coin: false }; 4]
}

struct Field {
    ground: Grid<Tile>,
    creatures: Holder<Creature>,
    occupancy: PosMap<usize>,
    particles: PosMap<Sprite>,
}

fn field(lines: Vec<&str>, creatures: Vec<Creature>) -> Field {
    let mut holder = Holder::new();
    let mut occupancy = PosMap::new();
    for c in creatures {
        let pos = c.pos;
        let key = holder.insert(c);
        occupancy.insert(pos, key);
    }
    Field { ground: tiles(lines), creatures: holder, occupancy, particles: PosMap::new() }
}

#[test]
fn impact_puts_creatures_before_tiles_before_the_range() {
    let mut friend = Creature::new_player(PlayerId(1), Sprite::Custom("p"), Pos::new(1, 0), false);
    friend.health = Health(9);
    let f = field(vec!["..#=~."], vec![zombie(Pos::new(2, 0), 20), friend, zombie(Pos::new(5, 0), 20)]);
    let mut b = bullet(Pos::new(2, 0), Pos::new(1, 0), Weapon::bite(Health(1), battilde::timestamp::Duration(0)));
    b.steps = Pos::new(5, 0);
    assert_eq!(impact(&b, &f.creatures, &f.ground, &f.occupancy), Impact::Creature(2));
    b.pos = Pos::new(1, 0);
    assert_eq!(impact(&b, &f.creatures, &f.ground, &f.occupancy), Impact::Spent);
    b.steps = Pos::new(1, 0);
    assert_eq!(impact(&b, &f.creatures, &f.ground, &f.occupancy), Impact::Nothing);
    b.pos = Pos::new(3, 0);
    b.steps = Pos::new(9, 0);
    assert_eq!(impact(&b, &f.creatures, &f.ground, &f.occupancy), Impact::Tile);
    b.pos = Pos::new(4, 0);
    assert_eq!(impact(&b, &f.creatures, &f.ground, &f.occupancy), Impact::Spent);
    b.steps = Pos::new(0, 0);
    assert_eq!(impact(&b, &f.creatures, &f.ground, &f.occupancy), Impact::Nothing);
    b.pos = Pos::new(9, 9);
    assert_eq!(impact(&b, &f.creatures, &f.ground, &f.occupancy), Impact::Nothing);
    b.alignment = Alignment::Monsters;
    b.pos = Pos::new(5, 0);
    assert_eq!(impact(&b, &f.creatures, &f.ground, &f.occupancy), Impact::Nothing);
    b.pos = Pos::new(1, 0);
    assert_eq!(impact(&b, &f.creatures, &f.ground, &f.occupancy), Impact::Creature(3));
}

#[test]
fn hurt_takes_health_and_stops_at_the_least() {
    let mut creatures = Holder::new();
    let a = creatures.insert(zombie(Pos::new(0, 0), 20));
    let b = creatures.insert(zombie(Pos::new(1, 0), 20));
    hurt(&mut creatures, a, Health(25));
    assert_eq!(creatures.get(&a).unwrap().health, Health(-5));
    assert_eq!(creatures.get(&b).unwrap().health, Health(20));
    hurt(&mut creatures, 99, Health(25));
    assert_eq!(creatures.get(&b).unwrap().health, Health(20));
    creatures.get_mut(&b).unwrap().health = Health(i64::MIN + 3);
    hurt(&mut creatures, b, Health(10));
    assert_eq!(creatures.get(&b).unwrap().health, Health(i64::MIN));
    hurt(&mut creatures, b, Health(0));
    assert_eq!(creatures.get(&b).unwrap().health, Health(i64::MIN));
}

#[test]
fn a_bullet_that_meets_nothing_flies_its_speed() {
    let mut f = field(vec!["........", "........"], Vec::new());
    let start = bullet(Pos::new(1, 1), Pos::new(1, 0), Weapon::rifle());
    let (end, met) = fly_with(start, &calm(), &mut f.creatures, &f.ground, &f.occupancy, &mut f.particles);
    assert_eq!(met, Impact::Nothing);
    assert_eq!(end.pos, Pos::new(5, 1));
    assert_eq!(end.steps, Pos::new(4, 0));
    assert_eq!(end.direction, start.direction);
    assert_eq!(end.ammo, start.ammo);
    assert_eq!(f.particles.len(), 4);
    for x in 2..6 {
        assert_eq!(f.particles.get(Pos::new(x, 1)), Some(&Sprite::Custom("bullethor")));
    }
}

#[test]
fn a_bullet_stops_at_the_first_thing_it_meets() {
    let mut f = field(vec![".....#.."], vec![zombie(Pos::new(3, 0), 20), zombie(Pos::new(4, 0), 20)]);
    let start = bullet(Pos::new(1, 0), Pos::new(1, 0), Weapon::rifle());
    let (end, met) = fly_with(start, &calm(), &mut f.creatures, &f.ground, &f.occupancy, &mut f.particles);
    assert_eq!(met, Impact::Creature(2));
    assert_eq!(end.pos, Pos::new(3, 0));
    assert_eq!(f.creatures.get(&2).unwrap().health, Health(-5));
    assert_eq!(f.creatures.get(&3).unwrap().health, Health(20));
    assert_eq!(f.particles.len(), 2);
    assert_eq!(f.particles.get(Pos::new(4, 0)), None);

    let mut g = field(vec![".....#.."], Vec::new());
    let (end, met) = fly_with(start, &calm(), &mut g.creatures, &g.ground, &g.occupancy, &mut g.particles);
    assert_eq!(met, Impact::Tile);
    assert_eq!(end.pos, Pos::new(5, 0));
    assert_eq!(g.particles.len(), 4);
}

#[test]
fn a_bullet_meets_what_is_on_its_own_cell_before_it_moves() {
    let mut f = field(vec!["....."], vec![zombie(Pos::new(1, 0), 7)]);
    let start = bullet(Pos::new(1, 0), Pos::new(1, 0), Weapon::rifle());
    let (end, met) = fly_with(start, &calm(), &mut f.creatures, &f.ground, &f.occupancy, &mut f.particles);
    assert_eq!(met, Impact::Creature(2));
    assert_eq!(end, start);
    assert_eq!(f.particles.len(), 0);
    assert_eq!(f.creatures.get(&2).unwrap().health, Health(-18));
}

#[test]
fn a_bite_reaches_one_cell() {
    let bite = Weapon::bite(Health(10), battilde::timestamp::Duration(2));
    let luck = vec![Luck { sway: None, coin: false }; 2];
    let mut f = field(vec!["....."], Vec::new());
    let start = bullet(Pos::new(1, 0), Pos::new(1, 0), bite);
    let (end, met) = fly_with(start, &luck, &mut f.creatures, &f.ground, &f.occupancy, &mut f.particles);
    assert_eq!(met, Impact::Spent);
    assert_eq!(end.pos, Pos::new(3, 0));
    assert_eq!(end.steps, Pos::new(2, 0));
    assert_eq!(f.particles.len(), 2);
    assert_eq!(f.particles.get(Pos::new(2, 0)), Some(&Sprite::Custom("bite")));
}

#[test]
fn luck_decides_the_sway_and_the_diagonal() {
    let mut f = field(vec!["........", "........", "........", "........"], Vec::new());
    let smg = Weapon::smg();
    let start = bullet(Pos::new(1, 1), Pos::new(1, 0), smg);
    let up = vec![Luck { sway: Some(false), coin: false }; 3];
    let (end, _) = fly_with(start, &up, &mut f.creatures, &f.ground, &f.occupancy, &mut f.particles);
    assert_eq!(end.pos, Pos::new(4, 0));
    let down = vec![Luck { sway: Some(true), coin: false }; 3];
    let (end, _) = fly_with(start, &down, &mut f.creatures, &f.ground, &f.occupancy, &mut f.particles);
    assert_eq!(end.pos, Pos::new(4, 2));
    let straight = vec![Luck { sway: None, coin: true }; 3];
    let (end, _) = fly_with(start, &straight, &mut f.creatures, &f.ground, &f.occupancy, &mut f.particles);
    assert_eq!(end.pos, Pos::new(4, 1));
    let diagonal = bullet(Pos::new(0, 0), Pos::new(1, 1), Weapon::rifle());
    let heads = vec![Luck { sway: None, coin: true }; 4];
    let (end, _) = fly_with(diagonal, &heads, &mut f.creatures, &f.ground, &f.occupancy, &mut f.particles);
    assert_eq!(end.pos, Pos::new(2, 2));
    assert_eq!(end.steps, Pos::new(2, 2));
    let mixed = vec![
        Luck { sway: None, coin: false },
        Luck { sway: None, coin: false },
        Luck { sway: None, coin: true },
        Luck { sway: None, coin: true },
    ];
    let (end, _) = fly_with(diagonal, &mixed, &mut f.creatures, &f.ground, &f.occupancy, &mut f.particles);
    assert_eq!(end.steps.x + end.steps.y, 4);
    assert!((end.steps.x - end.steps.y).abs() <= 2);
}

#[test]
fn luck_is_drawn_for_every_sub_step() {
    let mut dice = Dice::seeded(1);
    assert_eq!(draw_luck(0, &mut dice).len(), 0);
    let luck = draw_luck(400, &mut dice);
    assert_eq!(luck.len(), 400);
    let swaying = luck.iter().filter(|l| l.sway.is_some()).count();
    let heads = luck.iter().filter(|l| l.coin).count();
    let right = luck.iter().filter(|l| l.sway == Some(true)).count();
    assert!(swaying > 140 && swaying < 260);
    assert!(heads > 140 && heads < 260);
    assert!(right > 50 && right < 150);
}

#[test]
fn step_with_is_one_sub_step() {
    let mut b = bullet(Pos::new(5, 5), Pos::new(0, -3), Weapon::smg());
    b.step_with(Luck { sway: Some(true), coin: true });
    assert_eq!(b.pos, Pos::new(5, 4));
    assert_eq!(b.steps, Pos::new(0, 1));
    b.step_with(Luck { sway: Some(true), coin: true });
    assert_eq!(b.pos, Pos::new(6, 3));
    assert_eq!(b.steps, Pos::new(0, 2));
    b.step_with(Luck { sway: Some(true), coin: true });
    assert_eq!(b.pos, Pos::new(6, 2));
    assert_eq!(b.steps, Pos::new(0, 3));
}

#[test]
fn a_trail_is_the_cells_that_the_bullet_came_to() {
    let mut f = field(vec!["........", "........", "........"], Vec::new());
    f.particles.insert(Pos::new(0, 0), Sprite::Custom("smoke"));
    f.particles.insert(Pos::new(3, 1), Sprite::Custom("smoke"));
    let start = bullet(Pos::new(1, 1), Pos::new(1, 0), Weapon::rifle());
    let (end, met) = fly_with(start, &calm(), &mut f.creatures, &f.ground, &f.occupancy, &mut f.particles);
    assert_eq!(met, Impact::Nothing);
    assert_eq!(end.pos, Pos::new(5, 1));
    assert_eq!(f.particles.len(), 5);
    assert_eq!(f.particles.get(Pos::new(0, 0)), Some(&Sprite::Custom("smoke")));
    assert_eq!(f.particles.get(Pos::new(1, 1)), None);
    for x in 2..6 {
        assert_eq!(f.particles.get(Pos::new(x, 1)), Some(&Sprite::Custom("bullethor")));
    }
    assert_eq!(f.particles.get(Pos::new(6, 1)), None);
}

#[test]
fn the_cell_on_which_a_bullet_ends_has_its_trail_too() {
    let mut f = field(vec!["...#...."], Vec::new());
    let start = bullet(Pos::new(1, 0), Pos::new(1, 0), Weapon::rifle());
    let (end, met) = fly_with(start, &calm(), &mut f.creatures, &f.ground, &f.occupancy, &mut f.particles);
    assert_eq!(met, Impact::Tile);
    assert_eq!(end.pos, Pos::new(3, 0));
    assert_eq!(f.particles.len(), 2);
    assert_eq!(f.particles.key_at(0), Pos::new(2, 0));
    assert_eq!(f.particles.key_at(1), Pos::new(3, 0));
    assert_eq!(f.particles.get(Pos::new(3, 0)), Some(&Sprite::Custom("bullethor")));
}
