use battilde::controls::Control;
use battilde::creature::{Alignment, Creature, CreatureType, Health};
use battilde::dice::Dice;
use battilde::distance::distance_map;
use battilde::grid::Grid;
use battilde::holder::Holder;
use battilde::mapgen::MapTemplate;
use battilde::planner::{choose_step, cost_of, find_target, monster_plan, walkable_directions};
use battilde::playerid::PlayerId;
use battilde::pos::{Direction, Pos};
use battilde::sprite::Sprite;
use battilde::tile::Tile;
use battilde::util::Percentage;

fn tiles(lines: Vec<&str>) -> Grid<Tile> {
    let rows: Vec<String> = lines.iter().map(|l| l.to_string()).collect();
    let size = Pos::new(lines[0].len() as i64, lines.len() as i64);
    MapTemplate::from_rows(size, &rows, Vec::new(), Pos::new(0, 0), vec![Pos::new(0, 0)]).unwrap().ground
}

fn open_field() -> Grid<Tile> {
    tiles(vec![
        "..........", //
        "..........", //
        "....++....", //
        "..........", //
        "~.........", //
    ])
}

fn player_at(pos: Pos) -> Creature {
    let mut c = Creature::new_player(PlayerId(1), Sprite::Player("g", 'a'), pos, false);
    c.health = Health(100);
    c
}

fn monster(typ: CreatureType, pos: Pos) -> Creature {
    let mut dice = Dice::seeded(0);
    Creature::create_creature(typ, pos, &mut dice)
}

#[test]
fn the_nearest_target_is_picked_and_the_first_of_equals() {
    let ground = open_field();
    let mut creatures = Holder::new();
    creatures.insert(monster(CreatureType::Zombie, Pos::new(9, 4)));
    creatures.insert(player_at(Pos::new(0, 0)));
    creatures.insert(player_at(Pos::new(3, 1)));
    creatures.insert(player_at(Pos::new(1, 3)));
    creatures.insert(Creature::new_pillar(Pos::new(2, 1)));
    let hunter = monster(CreatureType::Zombie, Pos::new(2, 2));
    assert_eq!(find_target(&hunter, &creatures, &ground, false), Some(Pos::new(3, 1)));
    assert_eq!(find_target(&hunter, &creatures, &ground, true), Some(Pos::new(2, 1)));
    let far = monster(CreatureType::Zombie, Pos::new(0, 1));
    assert_eq!(find_target(&far, &creatures, &ground, false), Some(Pos::new(0, 0)));
}

#[test]
fn creatures_on_sanctuary_and_friends_are_no_targets() {
    let ground = open_field();
    let mut creatures = Holder::new();
    creatures.insert(player_at(Pos::new(4, 2)));
    creatures.insert(monster(CreatureType::Troll, Pos::new(5, 3)));
    let hunter = monster(CreatureType::Zombie, Pos::new(4, 3));
    assert_eq!(find_target(&hunter, &creatures, &ground, false), None);
    assert_eq!(find_target(&hunter, &creatures, &ground, true), None);
    let mut pvp = player_at(Pos::new(5, 2));
    pvp.alignment = Alignment::Player(PlayerId(2));
    assert_eq!(find_target(&pvp, &creatures, &ground, false), Some(Pos::new(5, 3)));
    creatures.insert(player_at(Pos::new(6, 2)));
    assert_eq!(find_target(&hunter, &creatures, &ground, false), Some(Pos::new(6, 2)));
}

#[test]
fn walkable_directions_are_those_onto_open_tiles() {
    let ground = tiles(vec![
        ".#.", //
        "~.=", //
        ".+.", //
    ]);
    assert_eq!(walkable_directions(&ground, Pos::new(1, 1)), vec![Direction::South]);
    assert_eq!(walkable_directions(&ground, Pos::new(0, 0)), Vec::<Direction>::new());
    assert_eq!(
        walkable_directions(&ground, Pos::new(1, 2)),
        vec![Direction::North, Direction::East, Direction::West]
    );
    assert_eq!(walkable_directions(&ground, Pos::new(2, 0)), Vec::<Direction>::new());
    assert_eq!(walkable_directions(&ground, Pos::new(5, 5)), Vec::<Direction>::new());
    assert_eq!(walkable_directions(&ground, Pos::new(3, 2)), vec![Direction::West]);
}

#[test]
fn choose_step_takes_the_first_cheapest_unless_wandering() {
    let ground = open_field();
    let field = distance_map(&ground, &vec![Pos::new(9, 2)]);
    let pos = Pos::new(3, 3);
    let all = vec![Direction::West, Direction::North, Direction::South, Direction::East];
    assert_eq!(choose_step(&all, &field, pos, false), Some(Control::Move(Direction::North)));
    assert_eq!(choose_step(&all, &field, pos, true), Some(Control::Move(Direction::West)));
    let turned = vec![Direction::West, Direction::East, Direction::South, Direction::North];
    assert_eq!(choose_step(&turned, &field, pos, false), Some(Control::Move(Direction::East)));
    let some = vec![Direction::West, Direction::South];
    assert_eq!(choose_step(&some, &field, pos, false), Some(Control::Move(Direction::West)));
    let ties = vec![Direction::South, Direction::West];
    assert_eq!(choose_step(&ties, &field, pos, false), Some(Control::Move(Direction::South)));
    assert_eq!(choose_step(&Vec::new(), &field, pos, false), None);
    assert_eq!(choose_step(&Vec::new(), &field, pos, true), None);
    assert_eq!(cost_of(&field, Pos::new(9, 2)), 0);
    assert_eq!(cost_of(&field, Pos::new(4, 3)), 6);
    assert_eq!(cost_of(&field, Pos::new(0, 4)), usize::MAX);
    assert_eq!(cost_of(&field, Pos::new(-1, 0)), usize::MAX);
}

#[test]
fn a_monster_fires_when_its_target_is_in_reach() {
    let ground = tiles(vec!["..................................."]);
    let field = distance_map(&ground, &Vec::new());
    let mut dice = Dice::seeded(1);
    for (kind, reach) in vec![
        (CreatureType::Zombie, 1),
        (CreatureType::Worm, 2),
        (CreatureType::Ymp, 27),
        (CreatureType::Xiangliu, 14),
        (CreatureType::Vargr, 1),
    ] {
        let hunter = monster(kind, Pos::new(0, 0));
        let buildings = kind == CreatureType::Worm;
        for dist in 1..34 {
            let mut creatures = Holder::new();
            if buildings {
                creatures.insert(Creature::new_pillar(Pos::new(dist, 0)));
            } else {
                creatures.insert(player_at(Pos::new(dist, 0)));
            }
            let plan = monster_plan(&hunter, &creatures, &ground, &field, buildings, Percentage(0), &mut dice);
            if dist <= reach {
                assert_eq!(plan, Some(Control::ShootPrecise(Pos::new(dist, 0))));
            } else {
                assert_eq!(plan, Some(Control::Move(Direction::East)));
            }
        }
    }
}

#[test]
fn a_monster_without_a_target_follows_the_field() {
    let ground = open_field();
    let field = distance_map(&ground, &vec![Pos::new(9, 0)]);
    let creatures: Holder<Creature> = Holder::new();
    let hunter = monster(CreatureType::Zombie, Pos::new(5, 3));
    let mut dice = Dice::seeded(2);
    let mut north = 0;
    for _ in 0..100 {
        match monster_plan(&hunter, &creatures, &ground, &field, false, Percentage(0), &mut dice) {
            Some(Control::Move(Direction::North)) => north += 1,
            Some(Control::Move(Direction::East)) => {}
            other => panic!("{:?}", other),
        }
    }
    assert!(north > 20 && north < 80);
    let mut seen = Vec::new();
    for _ in 0..200 {
        match monster_plan(&hunter, &creatures, &ground, &field, false, Percentage(100), &mut dice) {
            Some(Control::Move(dir)) => {
                if !seen.contains(&dir) {
                    seen.push(dir);
                }
            }
            other => panic!("{:?}", other),
        }
    }
    assert_eq!(seen.len(), 4);
}

#[test]
fn a_monster_that_is_walled_in_plans_nothing() {
    let ground = tiles(vec![
        "###", //
        "#.#", //
        "#~#", //
    ]);
    let field = distance_map(&ground, &Vec::new());
    let creatures: Holder<Creature> = Holder::new();
    let hunter = monster(CreatureType::Zombie, Pos::new(1, 1));
    let mut dice = Dice::seeded(2);
    assert_eq!(monster_plan(&hunter, &creatures, &ground, &field, false, Percentage(50), &mut dice), None);
}
