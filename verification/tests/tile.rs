use battilde::errors::WorldError;
use battilde::gamemode::GameMode;
use battilde::item::Item;
use battilde::mapgen::BuiltinMap;
use battilde::sprite::Sprite;
use battilde::tile::{FloorType, ObstacleType, Tile, WallType};

#[test]
fn tiles_have_their_sprites() {
    assert_eq!(Tile::Floor(FloorType::Stone).sprite(), Sprite::Custom("floor"));
    assert_eq!(Tile::Floor(FloorType::Dirt).sprite(), Sprite::Custom("ground"));
    assert_eq!(Tile::Floor(FloorType::Grass1).sprite(), Sprite::Custom("grass1"));
    assert_eq!(Tile::Floor(FloorType::Grass2).sprite(), Sprite::Custom("grass2"));
    assert_eq!(Tile::Floor(FloorType::Grass3).sprite(), Sprite::Custom("grass3"));
    assert_eq!(Tile::Gate.sprite(), Sprite::Custom("gate"));
    assert_eq!(Tile::Sanctuary.sprite(), Sprite::Custom("sanctuary"));
    assert_eq!(Tile::Wall(WallType::Wall).sprite(), Sprite::Custom("wall"));
    assert_eq!(Tile::Wall(WallType::Rubble).sprite(), Sprite::Custom("rubble"));
    assert_eq!(Tile::Wall(WallType::Rock).sprite(), Sprite::Custom("rock"));
    assert_eq!(Tile::Obstacle(ObstacleType::Water).sprite(), Sprite::Custom("water"));
    assert_eq!(Item::Health.sprite(), Sprite::Custom("health"));
}

#[test]
fn water_blocks_walking_but_not_bullets() {
    let water = Tile::Obstacle(ObstacleType::Water);
    assert!(water.blocking());
    assert!(!water.bullet_blocking());
}

#[test]
fn walls_and_gates_block_both() {
    for tile in vec![Tile::Wall(WallType::Wall), Tile::Wall(WallType::Rubble), Tile::Wall(WallType::Rock), Tile::Gate] {
        assert!(tile.blocking());
        assert!(tile.bullet_blocking());
    }
}

#[test]
fn floors_and_sanctuary_block_nothing() {
    for tile in vec![
        Tile::Floor(FloorType::Stone),
        Tile::Floor(FloorType::Dirt),
        Tile::Floor(FloorType::Grass1),
        Tile::Sanctuary,
    ] {
        assert!(!tile.blocking());
        assert!(!tile.bullet_blocking());
    }
}

#[test]
fn tiles_are_read_from_characters() {
    assert_eq!(Tile::from_char('"'), Some(Tile::Floor(FloorType::Stone)));
    assert_eq!(Tile::from_char('.'), Some(Tile::Floor(FloorType::Dirt)));
    assert_eq!(Tile::from_char(','), Some(Tile::Floor(FloorType::Grass1)));
    assert_eq!(Tile::from_char('\''), Some(Tile::Floor(FloorType::Grass2)));
    assert_eq!(Tile::from_char('`'), Some(Tile::Floor(FloorType::Grass3)));
    assert_eq!(Tile::from_char('='), Some(Tile::Gate));
    assert_eq!(Tile::from_char('+'), Some(Tile::Sanctuary));
    assert_eq!(Tile::from_char('#'), Some(Tile::Wall(WallType::Wall)));
    assert_eq!(Tile::from_char('X'), Some(Tile::Wall(WallType::Rock)));
    assert_eq!(Tile::from_char('R'), Some(Tile::Wall(WallType::Rubble)));
    assert_eq!(Tile::from_char('~'), Some(Tile::Obstacle(ObstacleType::Water)));
    assert_eq!(Tile::from_char('?'), None);
    assert_eq!(Tile::from_char(' '), None);
}

#[test]
fn game_modes_are_read_from_names() {
    assert_eq!(GameMode::from_name("coop"), Ok(GameMode::Survival));
    assert_eq!(GameMode::from_name("survival"), Ok(GameMode::Survival));
    assert_eq!(GameMode::from_name("pillars"), Ok(GameMode::PillarDefence));
    assert_eq!(GameMode::from_name("pvp"), Ok(GameMode::PvP));
    assert_eq!(GameMode::from_name("PvP"), Err(WorldError::InvalidGameMode));
    assert_eq!(GameMode::from_name(""), Err(WorldError::InvalidGameMode));
    assert_eq!("pillars".parse::<GameMode>(), Ok(GameMode::PillarDefence));
    assert_eq!("pillar".parse::<GameMode>(), Err(WorldError::InvalidGameMode));
}

#[test]
fn only_pillar_defence_has_pillars() {
    assert!(GameMode::PillarDefence.has_pillars());
    assert!(!GameMode::Survival.has_pillars());
    assert!(!GameMode::PvP.has_pillars());
}

#[test]
fn builtin_maps_are_read_from_names() {
    assert_eq!(BuiltinMap::from_name("square"), Ok(BuiltinMap::Square));
    assert_eq!(BuiltinMap::from_name("round"), Err(WorldError::InvalidMap));
    assert_eq!("square".parse::<BuiltinMap>(), Ok(BuiltinMap::Square));
}
