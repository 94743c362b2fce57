use vstd::prelude::*;
use crate::sprite::Sprite;

verus! {

#[derive(Debug, Clone, Copy, PartialEq, Eq, Structural)]
pub enum FloorType {
    Stone,
    Dirt,
    Grass1,
    Grass2,
    Grass3,
}

#[derive(Debug, Clone, Copy, PartialEq, Eq, Structural)]
pub enum WallType {
    Wall,
    Rubble,
    Rock,
}

#[derive(Debug, Clone, Copy, PartialEq, Eq, Structural)]
pub enum ObstacleType {
    Water,
}

/// What the ground of one cell consists of.
#[derive(Debug, Clone, Copy, PartialEq, Eq, Structural)]
pub enum Tile {
    Floor(FloorType),
    Sanctuary,
    Gate,
    Wall(WallType),
    Obstacle(ObstacleType),
}

impl Tile {
    /// The sprite that shows the tile.
    pub open spec fn spec_sprite(self) -> Sprite {
        Sprite::Custom(
            match self {
                Tile::Floor(FloorType::Stone) => "floor",
                Tile::Floor(FloorType::Dirt) => "ground",
                Tile::Floor(FloorType::Grass1) => "grass1",
                Tile::Floor(FloorType::Grass2) => "grass2",
                Tile::Floor(FloorType::Grass3) => "grass3",
                Tile::Gate => "gate",
                Tile::Sanctuary => "sanctuary",
                Tile::Wall(WallType::Wall) => "wall",
                Tile::Wall(WallType::Rubble) => "rubble",
                Tile::Wall(WallType::Rock) => "rock",
                Tile::Obstacle(ObstacleType::Water) => "water",
            },
        )
    }

    /// Whether the tile keeps creatures from walking onto it.
    pub open spec fn blocks_walking(self) -> bool {
        !(self is Floor || self is Sanctuary)
    }

    /// Whether the tile stops bullets; water lets them pass.
    pub open spec fn blocks_bullets(self) -> bool {
        self is Wall || self is Gate
    }

    /// The tile that a character stands for in the rows of a map.
    pub open spec fn spec_from_char(c: char) -> Option<Tile> {
        if c == '"' {
            Some(Tile::Floor(FloorType::Stone))
        } else if c == '.' {
            Some(Tile::Floor(FloorType::Dirt))
        } else if c == ',' {
            Some(Tile::Floor(FloorType::Grass1))
        } else if c == '\'' {
            Some(Tile::Floor(FloorType::Grass2))
        } else if c == '`' {
            Some(Tile::Floor(FloorType::Grass3))
        } else if c == '=' {
            Some(Tile::Gate)
        } else if c == '+' {
            Some(Tile::Sanctuary)
        } else if c == '#' {
            Some(Tile::Wall(WallType::Wall))
        } else if c == 'X' {
            Some(Tile::Wall(WallType::Rock))
        } else if c == 'R' {
            Some(Tile::Wall(WallType::Rubble))
        } else if c == '~' {
            Some(Tile::Obstacle(ObstacleType::Water))
        } else {
            None
        }
    }

    pub fn sprite(&self) -> (s: Sprite)
        ensures
            s == self.spec_sprite(),
    {
        Sprite::new(
            match self {
                Tile::Floor(FloorType::Stone) => "floor",
                Tile::Floor(FloorType::Dirt) => "ground",
                Tile::Floor(FloorType::Grass1) => "grass1",
                Tile::Floor(FloorType::Grass2) => "grass2",
                Tile::Floor(FloorType::Grass3) => "grass3",
                Tile::Gate => "gate",
                Tile::Sanctuary => "sanctuary",
                Tile::Wall(WallType::Wall) => "wall",
                Tile::Wall(WallType::Rubble) => "rubble",
                Tile::Wall(WallType::Rock) => "rock",
                Tile::Obstacle(ObstacleType::Water) => "water",
            },
        )
    }

    pub fn blocking(&self) -> (b: bool)
        ensures
            b == self.blocks_walking(),
    {
        match self {
            Tile::Floor(_) => false,
            Tile::Sanctuary => false,
            Tile::Wall(_) => true,
            Tile::Gate => true,
            Tile::Obstacle(_) => true,
        }
    }

    pub fn bullet_blocking(&self) -> (b: bool)
        ensures
            b == self.blocks_bullets(),
    {
        match self {
            Tile::Floor(_) => false,
            Tile::Sanctuary => false,
            Tile::Wall(_) => true,
            Tile::Gate => true,
            Tile::Obstacle(_) => false,
        }
    }

    pub fn from_char(c: char) -> (r: Option<Tile>)
        ensures
            r == Tile::spec_from_char(c),
    {
        Some(
            match c {
                '"' => Tile::Floor(FloorType::Stone),
                '.' => Tile::Floor(FloorType::Dirt),
                ',' => Tile::Floor(FloorType::Grass1),
                '\'' => Tile::Floor(FloorType::Grass2),
                '`' => Tile::Floor(FloorType::Grass3),
                '=' => Tile::Gate,
                '+' => Tile::Sanctuary,
                '#' => Tile::Wall(WallType::Wall),
                'X' => Tile::Wall(WallType::Rock),
                'R' => Tile::Wall(WallType::Rubble),
                '~' => Tile::Obstacle(ObstacleType::Water),
                _ => {
                    return None
                },
            },
        )
    }
}

} // verus!
