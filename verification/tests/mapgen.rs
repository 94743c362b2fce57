use battilde::creature::CreatureType;
use battilde::dice::Dice;
use battilde::distance::distance_map;
use battilde::errors::WorldError;
use battilde::gamemode::GameMode;
use battilde::grid::Grid;
use battilde::mapgen::{create_map, create_square_map, dig_lake_with, square_tile, BuiltinMap, MapTemplate, MapType};
use battilde::pos::{Direction, Pos};
use battilde::tile::{FloorType, ObstacleType, Tile, WallType};

fn rows(lines: Vec<&str>) -> Vec<String> {
    lines.into_iter().map(|l| l.to_string()).collect()
}

#[test]
fn square_map_has_the_fixed_places() {
    let mut dice = Dice::seeded(1);
    let map = create_square_map(GameMode::Survival, &mut dice);
    assert_eq!(map.size, Pos::new(64, 64));
    assert_eq!(map.ground.size(), Pos::new(64, 64));
    assert_eq!(map.spawnpoint, Pos::new(32, 32));
    assert_eq!(map.monsterspawn, vec![Pos::new(0, 0), Pos::new(63, 0), Pos::new(0, 63), Pos::new(63, 63)]);
    assert!(map.creatures.is_empty());
}

#[test]
fn square_map_with_pillars_has_four_on_rubble() {
    let mut dice = Dice::seeded(1);
    let map = create_square_map(GameMode::PillarDefence, &mut dice);
    assert_eq!(
        map.creatures,
        vec![
            (Pos::new(36, 36), CreatureType::Pillar),
            (Pos::new(36, 28), CreatureType::Pillar),
            (Pos::new(28, 36), CreatureType::Pillar),
            (Pos::new(28, 28), CreatureType::Pillar)
        ]
    );
    for (pos, _) in &map.creatures {
        assert_eq!(map.ground.get(*pos), Some(&Tile::Wall(WallType::Rubble)));
    }
}

#[test]
fn square_tiles_round_the_middle() {
    let mode = GameMode::Survival;
    assert_eq!(square_tile(mode, Pos::new(32, 32)), Tile::Sanctuary);
    assert_eq!(square_tile(mode, Pos::new(35, 30)), Tile::Sanctuary);
    assert_eq!(square_tile(mode, Pos::new(29, 35)), Tile::Wall(WallType::Wall));
    assert_eq!(square_tile(mode, Pos::new(35, 35)), Tile::Wall(WallType::Wall));
    assert_eq!(square_tile(mode, Pos::new(36, 35)), Tile::Wall(WallType::Wall));
    assert_eq!(square_tile(mode, Pos::new(36, 34)), Tile::Wall(WallType::Wall));
    assert_eq!(square_tile(mode, Pos::new(35, 28)), Tile::Wall(WallType::Wall));
    assert_eq!(square_tile(mode, Pos::new(34, 28)), Tile::Wall(WallType::Wall));
    assert_eq!(square_tile(mode, Pos::new(28, 28)), Tile::Wall(WallType::Wall));
    assert_eq!(square_tile(GameMode::PillarDefence, Pos::new(28, 28)), Tile::Wall(WallType::Rubble));
    assert_eq!(square_tile(GameMode::PvP, Pos::new(36, 28)), Tile::Wall(WallType::Wall));
    assert_eq!(square_tile(mode, Pos::new(32, 28)), Tile::Gate);
    assert_eq!(square_tile(mode, Pos::new(33, 36)), Tile::Gate);
    assert_eq!(square_tile(mode, Pos::new(36, 31)), Tile::Gate);
    assert_eq!(square_tile(mode, Pos::new(28, 33)), Tile::Gate);
    assert_eq!(square_tile(mode, Pos::new(32, 27)), Tile::Floor(FloorType::Dirt));
    assert_eq!(square_tile(mode, Pos::new(33, 0)), Tile::Floor(FloorType::Dirt));
    assert_eq!(square_tile(mode, Pos::new(63, 31)), Tile::Floor(FloorType::Dirt));
    assert_eq!(square_tile(mode, Pos::new(37, 37)), square_tile(GameMode::PvP, Pos::new(37, 37)));
}

#[test]
fn square_grass_is_of_three_kinds() {
    let mut kinds = vec![0, 0, 0];
    for y in 0..27 {
        for x in 0..27 {
            match square_tile(GameMode::Survival, Pos::new(x, y)) {
                Tile::Floor(FloorType::Grass1) => kinds[0] += 1,
                Tile::Floor(FloorType::Grass2) => kinds[1] += 1,
                Tile::Floor(FloorType::Grass3) => kinds[2] += 1,
                other => panic!("no grass at {} {}: {:?}", x, y, other),
            }
        }
    }
    assert!(kinds[0] > 100 && kinds[1] > 100 && kinds[2] > 100);
}

#[test]
fn square_map_is_the_rule_or_water_away_from_the_middle() {
    let mut with_water = 0;
    for seed in 0..20 {
        let mut dice = Dice::seeded(seed);
        let map = create_square_map(GameMode::PillarDefence, &mut dice);
        let mut water = 0;
        for y in 0..64 {
            for x in 0..64 {
                let pos = Pos::new(x, y);
                let tile = *map.ground.get_unchecked(pos);
                if tile != square_tile(GameMode::PillarDefence, pos) {
                    assert_eq!(tile, Tile::Obstacle(ObstacleType::Water));
                    assert!(8 <= (x - 32).abs() && (x - 32).abs() <= 27);
                    assert!(8 <= (y - 32).abs() && (y - 32).abs() <= 27);
                    water += 1;
                }
            }
        }
        assert!(water <= 64);
        if water > 0 {
            with_water += 1;
        }
    }
    assert!(with_water >= 10);
}

#[test]
fn template_is_built_from_rows() {
    let map = MapTemplate::from_rows(
        Pos::new(4, 3),
        &rows(vec!["#.+=", "~`,"]),
        vec![(Pos::new(1, 0), CreatureType::Zombie)],
        Pos::new(2, 0),
        vec![Pos::new(3, 2)],
    )
    .unwrap();
    assert_eq!(map.size, Pos::new(4, 3));
    assert_eq!(map.ground.size(), Pos::new(4, 3));
    assert_eq!(map.ground.get(Pos::new(0, 0)), Some(&Tile::Wall(WallType::Wall)));
    assert_eq!(map.ground.get(Pos::new(1, 0)), Some(&Tile::Floor(FloorType::Dirt)));
    assert_eq!(map.ground.get(Pos::new(2, 0)), Some(&Tile::Sanctuary));
    assert_eq!(map.ground.get(Pos::new(3, 0)), Some(&Tile::Gate));
    assert_eq!(map.ground.get(Pos::new(0, 1)), Some(&Tile::Obstacle(ObstacleType::Water)));
    assert_eq!(map.ground.get(Pos::new(1, 1)), Some(&Tile::Floor(FloorType::Grass3)));
    assert_eq!(map.ground.get(Pos::new(2, 1)), Some(&Tile::Floor(FloorType::Grass1)));
    assert_eq!(map.ground.get(Pos::new(3, 1)), Some(&Tile::Floor(FloorType::Dirt)));
    assert_eq!(map.ground.get(Pos::new(0, 2)), Some(&Tile::Floor(FloorType::Dirt)));
    assert_eq!(map.creatures, vec![(Pos::new(1, 0), CreatureType::Zombie)]);
    assert_eq!(map.spawnpoint, Pos::new(2, 0));
    assert_eq!(map.monsterspawn, vec![Pos::new(3, 2)]);
}

#[test]
fn rows_beyond_the_size_are_left_out() {
    let map = MapTemplate::from_rows(
        Pos::new(2, 1),
        &rows(vec!["+=#", "###"]),
        Vec::new(),
        Pos::new(0, 0),
        vec![Pos::new(1, 0)],
    )
    .unwrap();
    assert_eq!(map.ground.get(Pos::new(0, 0)), Some(&Tile::Sanctuary));
    assert_eq!(map.ground.get(Pos::new(1, 0)), Some(&Tile::Gate));
    assert_eq!(map.ground.get(Pos::new(2, 0)), None);
    assert_eq!(map.ground.get(Pos::new(0, 1)), None);
}

#[test]
fn malformed_tile_is_the_first_bad_character() {
    let r = MapTemplate::from_rows(
        Pos::new(3, 2),
        &rows(vec!["..+", ".?!"]),
        Vec::new(),
        Pos::new(0, 0),
        vec![Pos::new(1, 0)],
    );
    assert_eq!(r.err(), Some(WorldError::MalformedTile('?')));
    let beyond = MapTemplate::from_rows(
        Pos::new(1, 1),
        &rows(vec![".....Z"]),
        Vec::new(),
        Pos::new(0, 0),
        vec![Pos::new(0, 0)],
    );
    assert_eq!(beyond.err(), Some(WorldError::MalformedTile('Z')));
}

#[test]
fn invalid_map_for_sizes_and_places_that_do_not_fit() {
    let ok = |size: Pos, spawn: Pos, monsters: Vec<Pos>, creatures: Vec<(Pos, CreatureType)>| {
        MapTemplate::from_rows(size, &rows(vec!["...", "..."]), creatures, spawn, monsters).err()
    };
    let inside = Pos::new(1, 1);
    assert_eq!(ok(Pos::new(3, 2), inside, vec![inside], Vec::new()), None);
    assert_eq!(ok(Pos::new(0, 2), inside, vec![inside], Vec::new()), Some(WorldError::InvalidMap));
    assert_eq!(ok(Pos::new(3, -1), inside, vec![inside], Vec::new()), Some(WorldError::InvalidMap));
    assert_eq!(ok(Pos::new(1048577, 1), Pos::new(0, 0), vec![Pos::new(0, 0)], Vec::new()), Some(WorldError::InvalidMap));
    assert_eq!(ok(Pos::new(3, 2), Pos::new(3, 1), vec![inside], Vec::new()), Some(WorldError::InvalidMap));
    assert_eq!(ok(Pos::new(3, 2), inside, Vec::new(), Vec::new()), Some(WorldError::InvalidMap));
    assert_eq!(ok(Pos::new(3, 2), inside, vec![inside, Pos::new(0, 2)], Vec::new()), Some(WorldError::InvalidMap));
    assert_eq!(
        ok(Pos::new(3, 2), inside, vec![inside], vec![(Pos::new(-1, 0), CreatureType::Worm)]),
        Some(WorldError::InvalidMap)
    );
    let bad_size_first = MapTemplate::from_rows(Pos::new(0, 0), &rows(vec!["?"]), Vec::new(), inside, vec![inside]);
    assert_eq!(bad_size_first.err(), Some(WorldError::InvalidMap));
    let bad_tile_second = MapTemplate::from_rows(Pos::new(1, 1), &rows(vec!["?"]), Vec::new(), inside, vec![inside]);
    assert_eq!(bad_tile_second.err(), Some(WorldError::MalformedTile('?')));
}

#[test]
fn create_map_copies_a_custom_template() {
    let template = MapTemplate::from_rows(
        Pos::new(2, 2),
        &rows(vec!["+#", ".~"]),
        vec![(Pos::new(0, 1), CreatureType::Pillar)],
        Pos::new(0, 0),
        vec![Pos::new(0, 1)],
    )
    .unwrap();
    let typ = MapType::Custom(template);
    let mut dice = Dice::seeded(0);
    let map = create_map(&typ, GameMode::PvP, &mut dice);
    assert_eq!(map.size, Pos::new(2, 2));
    assert_eq!(map.ground.get(Pos::new(1, 0)), Some(&Tile::Wall(WallType::Wall)));
    assert_eq!(map.ground.get(Pos::new(1, 1)), Some(&Tile::Obstacle(ObstacleType::Water)));
    assert_eq!(map.creatures, vec![(Pos::new(0, 1), CreatureType::Pillar)]);
    assert_eq!(map.spawnpoint, Pos::new(0, 0));
    assert_eq!(map.monsterspawn, vec![Pos::new(0, 1)]);
    let square = create_map(&MapType::Builtin(BuiltinMap::Square), GameMode::PvP, &mut dice);
    assert_eq!(square.size, Pos::new(64, 64));
}

fn ground(lines: Vec<&str>) -> Grid<Tile> {
    let width = lines[0].len() as i64;
    let height = lines.len() as i64;
    MapTemplate::from_rows(Pos::new(width, height), &rows(lines), Vec::new(), Pos::new(0, 0), vec![Pos::new(0, 0)])
        .unwrap()
        .ground
}

#[test]
fn distances_count_steps_round_walls() {
    let tiles = ground(vec![
        ".....", //
        ".###.", //
        ".#.#.", //
        ".#...", //
    ]);
    let field = distance_map(&tiles, &vec![Pos::new(0, 0)]);
    let d = |x: i64, y: i64| *field.get_unchecked(Pos::new(x, y));
    assert_eq!(d(0, 0), Some(0));
    assert_eq!(d(4, 0), Some(4));
    assert_eq!(d(0, 3), Some(3));
    assert_eq!(d(4, 3), Some(7));
    assert_eq!(d(3, 3), Some(8));
    assert_eq!(d(2, 3), Some(9));
    assert_eq!(d(2, 2), Some(10));
    assert_eq!(d(1, 1), None);
    assert_eq!(d(3, 2), None);
}

#[test]
fn distances_are_to_the_nearest_target() {
    let tiles = ground(vec![".......", ".......", "......."]);
    let field = distance_map(&tiles, &vec![Pos::new(0, 0), Pos::new(6, 2), Pos::new(9, 9)]);
    for y in 0..3i64 {
        for x in 0..7i64 {
            let expected = std::cmp::min(x + y, (6 - x) + (2 - y)) as usize;
            assert_eq!(*field.get_unchecked(Pos::new(x, y)), Some(expected));
        }
    }
}

#[test]
fn distances_leave_unreachable_cells_alone() {
    let tiles = ground(vec![
        "..~..", //
        "..~..", //
    ]);
    let field = distance_map(&tiles, &vec![Pos::new(0, 0)]);
    assert_eq!(*field.get_unchecked(Pos::new(1, 1)), Some(2));
    assert_eq!(*field.get_unchecked(Pos::new(2, 0)), None);
    assert_eq!(*field.get_unchecked(Pos::new(3, 0)), None);
    assert_eq!(*field.get_unchecked(Pos::new(4, 1)), None);
    let none = distance_map(&tiles, &Vec::new());
    assert_eq!(*none.get_unchecked(Pos::new(0, 0)), None);
}

#[test]
fn a_target_on_a_wall_is_a_source_all_the_same() {
    let tiles = ground(vec![
        "...", //
        ".R.", //
        "...", //
    ]);
    let field = distance_map(&tiles, &vec![Pos::new(1, 1)]);
    assert_eq!(*field.get_unchecked(Pos::new(1, 1)), Some(0));
    assert_eq!(*field.get_unchecked(Pos::new(1, 0)), Some(1));
    assert_eq!(*field.get_unchecked(Pos::new(0, 0)), Some(2));
    assert_eq!(*field.get_unchecked(Pos::new(2, 2)), Some(2));
}

#[test]
fn a_lake_is_a_short_walk_in_its_quarter() {
    let mut lakes = 0;
    for seed in 0..40 {
        let mut dice = Dice::seeded(seed);
        let map = create_square_map(GameMode::Survival, &mut dice);
        for quarter in 0..4 {
            let mut water = Vec::new();
            for y in 0..64i64 {
                for x in 0..64i64 {
                    let here = (if x > 32 { 0 } else { 2 }) + (if y > 32 { 0 } else { 1 });
                    if here == quarter && *map.ground.get_unchecked(Pos::new(x, y)) == Tile::Obstacle(ObstacleType::Water) {
                        water.push(Pos::new(x, y));
                    }
                }
            }
            if water.is_empty() {
                continue;
            }
            lakes += 1;
            assert!(water.len() <= 16);
            for a in &water {
                assert!(water.iter().all(|b| a.distance_to(*b) <= 8));
                assert!(
                    water.len() == 1 || water.iter().any(|b| a.distance_to(*b) == 1),
                    "{:?} lies alone in {:?}",
                    a,
                    water
                );
            }
        }
    }
    assert!(lakes > 50 && lakes < 110);
}

fn water_of(ground: &Grid<Tile>) -> Vec<Pos> {
    let mut water = Vec::new();
    for y in 0..ground.size().y {
        for x in 0..ground.size().x {
            if *ground.get_unchecked(Pos::new(x, y)) == Tile::Obstacle(ObstacleType::Water) {
                water.push(Pos::new(x, y));
            }
        }
    }
    water
}

#[test]
fn a_lake_follows_its_turns() {
    let dry = || Grid::new(Pos::new(20, 20), Tile::Floor(FloorType::Dirt));
    let start = Pos::new(10, 10);

    let mut ground = dry();
    dig_lake_with(&mut ground, start, &vec![Direction::East; 16]);
    assert_eq!(
        water_of(&ground),
        vec![Pos::new(10, 10), Pos::new(11, 10), Pos::new(12, 10), Pos::new(13, 10), Pos::new(14, 10)]
    );

    let mut ground = dry();
    dig_lake_with(&mut ground, start, &Vec::new());
    assert_eq!(water_of(&ground), vec![start]);

    let mut ground = dry();
    dig_lake_with(&mut ground, start, &vec![Direction::North, Direction::West]);
    assert_eq!(water_of(&ground), vec![Pos::new(9, 9), Pos::new(10, 9), Pos::new(10, 10)]);

    let mut ground = dry();
    let mut round = Vec::new();
    for _ in 0..5 {
        round.extend(vec![Direction::South, Direction::East, Direction::North, Direction::West]);
    }
    dig_lake_with(&mut ground, start, &round);
    assert_eq!(water_of(&ground), vec![Pos::new(10, 10), Pos::new(11, 10), Pos::new(10, 11), Pos::new(11, 11)]);

    let mut ground = dry();
    let mut long = vec![Direction::South, Direction::South];
    for _ in 0..7 {
        long.extend(vec![Direction::East, Direction::West]);
    }
    long.extend(vec![Direction::South, Direction::South]);
    dig_lake_with(&mut ground, start, &long);
    assert_eq!(water_of(&ground), vec![Pos::new(10, 10), Pos::new(10, 11), Pos::new(10, 12), Pos::new(11, 12)]);
}
