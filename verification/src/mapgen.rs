use vstd::prelude::*;
use crate::creature::CreatureType;
use crate::dice::Dice;
use crate::errors::WorldError;
use crate::gamemode::GameMode;
use crate::grid::Grid;
use crate::pos::{Direction, GRID_LIMIT, Pos};
use crate::text::{chars_of, str_eq};
use crate::tile::{FloorType, ObstacleType, Tile, WallType};
use crate::util::{abs, randomize, spec_abs, spec_randomize, spec_signum};

verus! {

/// What a world is built from, and built again from when a round is over.
#[derive(Debug)]
pub struct MapTemplate {
    pub size: Pos,
    pub ground: Grid<Tile>,
    pub creatures: Vec<(Pos, CreatureType)>,
    pub spawnpoint: Pos,
    pub monsterspawn: Vec<Pos>,
}

#[derive(Debug, Clone, Copy, PartialEq, Eq, Structural)]
pub enum BuiltinMap {
    Square,
}

#[derive(Debug)]
pub enum MapType {
    Builtin(BuiltinMap),
    Custom(MapTemplate),
}

/// Whether a map of this size can be held: it has a cell, no side is
/// longer than `GRID_LIMIT`, and its cells can be counted in `usize`.
pub open spec fn size_fits(size: Pos) -> bool {
    &&& 1 <= size.x <= GRID_LIMIT
    &&& 1 <= size.y <= GRID_LIMIT
    &&& size.x * size.y <= usize::MAX
}

impl BuiltinMap {
    /// Reads the name of a built-in map.
    pub fn from_name(s: &str) -> (r: Result<BuiltinMap, WorldError>)
        ensures
            r == (if s@ == "square"@ {
                Ok::<BuiltinMap, WorldError>(BuiltinMap::Square)
            } else {
                Err(WorldError::InvalidMap)
            }),
    {
        if str_eq(s, "square") {
            Ok(BuiltinMap::Square)
        } else {
            Err(WorldError::InvalidMap)
        }
    }
}

impl core::str::FromStr for BuiltinMap {
    type Err = WorldError;

    fn from_str(s: &str) -> (r: Result<BuiltinMap, WorldError>)
        ensures
            r == (if s@ == "square"@ {
                Ok::<BuiltinMap, WorldError>(BuiltinMap::Square)
            } else {
                Err(WorldError::InvalidMap)
            }),
    {
        BuiltinMap::from_name(s)
    }
}

impl MapTemplate {
    /// The parts of the template fit together: the ground has the
    /// template's size, and the spawn point, the monsters' spawn cells, of
    /// which there is at least one, and the creatures lie on the ground.
    pub open spec fn wf(self) -> bool {
        &&& self.ground.wf()
        &&& self.ground.spec_size() == self.size
        &&& size_fits(self.size)
        &&& self.ground.contains(self.spawnpoint)
        &&& self.monsterspawn@.len() > 0
        &&& forall|i: int| 0 <= i < self.monsterspawn@.len() ==> self.ground.contains(#[trigger] self.monsterspawn@[i])
        &&& forall|i: int| 0 <= i < self.creatures@.len() ==> self.ground.contains((#[trigger] self.creatures@[i]).0)
    }

    /// Whether two templates describe the same map.
    pub open spec fn same_as(self, other: MapTemplate) -> bool {
        &&& self.size == other.size
        &&& self.ground.spec_size() == other.ground.spec_size()
        &&& self.ground.cells() == other.ground.cells()
        &&& self.creatures@ == other.creatures@
        &&& self.spawnpoint == other.spawnpoint
        &&& self.monsterspawn@ == other.monsterspawn@
    }

    /// A template that describes the same map.
    pub fn copy(&self) -> (t: MapTemplate)
        requires
            self.ground.wf(),
        ensures
            t.same_as(*self),
            self.wf() ==> t.wf(),
    {
        let mut creatures: Vec<(Pos, CreatureType)> = Vec::new();
        let mut i: usize = 0;
        while i < self.creatures.len()
            invariant
                i <= self.creatures@.len(),
                creatures@ == self.creatures@.subrange(0, i as int),
            decreases self.creatures@.len() - i,
        {
            creatures.push(self.creatures[i]);
            assert(creatures@ =~= self.creatures@.subrange(0, i + 1));
            i += 1;
        }
        assert(creatures@ =~= self.creatures@);
        let mut monsterspawn: Vec<Pos> = Vec::new();
        let mut j: usize = 0;
        while j < self.monsterspawn.len()
            invariant
                j <= self.monsterspawn@.len(),
                monsterspawn@ == self.monsterspawn@.subrange(0, j as int),
            decreases self.monsterspawn@.len() - j,
        {
            monsterspawn.push(self.monsterspawn[j]);
            assert(monsterspawn@ =~= self.monsterspawn@.subrange(0, j + 1));
            j += 1;
        }
        assert(monsterspawn@ =~= self.monsterspawn@);
        MapTemplate {
            size: self.size,
            ground: self.ground.copy(),
            creatures,
            spawnpoint: self.spawnpoint,
            monsterspawn,
        }
    }

    /// Whether every character of the rows that comes before column `x` of
    /// row `y` stands for a tile.
    pub open spec fn tiles_before(rows: Seq<String>, y: int, x: int) -> bool {
        forall|j: int, i: int|
            0 <= j < rows.len() && 0 <= i < rows[j]@.len() && (j < y || (j == y && i < x)) ==> Tile::spec_from_char(
                #[trigger] rows[j]@[i],
            ) is Some
    }

    /// The tile that the rows give to the cell at `pos`: the one its
    /// character stands for, and dirt where the rows do not reach.
    pub open spec fn tile_of(rows: Seq<String>, pos: Pos) -> Tile {
        if 0 <= pos.y < rows.len() && 0 <= pos.x < rows[pos.y as int]@.len() {
            match Tile::spec_from_char(rows[pos.y as int]@[pos.x as int]) {
                Some(tile) => tile,
                None => Tile::Floor(FloorType::Dirt),
            }
        } else {
            Tile::Floor(FloorType::Dirt)
        }
    }

    /// Whether the positions of a map lie on a ground of the given size,
    /// and there is a cell for monsters to spawn on.
    pub open spec fn places_fit(size: Pos, creatures: Seq<(Pos, CreatureType)>, spawnpoint: Pos, monsterspawn: Seq<Pos>) -> bool {
        &&& 0 <= spawnpoint.x < size.x && 0 <= spawnpoint.y < size.y
        &&& monsterspawn.len() > 0
        &&& forall|i: int| 0 <= i < monsterspawn.len() ==> 0 <= (#[trigger] monsterspawn[i]).x < size.x && 0 <= monsterspawn[i].y < size.y
        &&& forall|i: int| 0 <= i < creatures.len() ==> 0 <= (#[trigger] creatures[i]).0.x < size.x && 0 <= creatures[i].0.y < size.y
    }

    /// Builds a template from its parts, the ground given as rows of
    /// characters. A size that cannot be held is refused first, then the
    /// first character that stands for no tile, then positions off the ground.
    /// Characters beyond the size are checked and then left out.
    pub fn from_rows(
        size: Pos,
        rows: &Vec<String>,
        creatures: Vec<(Pos, CreatureType)>,
        spawnpoint: Pos,
        monsterspawn: Vec<Pos>,
    ) -> (r: Result<MapTemplate, WorldError>)
        ensures
            match r {
                Ok(t) => {
                    &&& t.wf()
                    &&& size_fits(size)
                    &&& MapTemplate::tiles_before(rows@, rows@.len() as int, 0)
                    &&& MapTemplate::places_fit(size, creatures@, spawnpoint, monsterspawn@)
                    &&& t.size == size
                    &&& t.creatures@ == creatures@
                    &&& t.spawnpoint == spawnpoint
                    &&& t.monsterspawn@ == monsterspawn@
                    &&& forall|p: Pos| t.ground.contains(p) ==> #[trigger] t.ground.at(p) == MapTemplate::tile_of(rows@, p)
                },
                Err(WorldError::MalformedTile(c)) => size_fits(size) && exists|y: int, x: int|
                    0 <= y < rows@.len() && 0 <= x < rows@[y]@.len() && #[trigger] rows@[y]@[x] == c
                        && Tile::spec_from_char(c) is None && MapTemplate::tiles_before(rows@, y, x),
                Err(WorldError::InvalidMap) => !size_fits(size) || (MapTemplate::tiles_before(
                    rows@,
                    rows@.len() as int,
                    0,
                ) && !MapTemplate::places_fit(size, creatures@, spawnpoint, monsterspawn@)),
                Err(_) => false,
            },
    {
        if !(1 <= size.x && size.x <= GRID_LIMIT && 1 <= size.y && size.y <= GRID_LIMIT) {
            return Err(WorldError::InvalidMap);
        }
        assert(size.x * size.y <= GRID_LIMIT * GRID_LIMIT) by (nonlinear_arith)
            requires
                1 <= size.x <= GRID_LIMIT,
                1 <= size.y <= GRID_LIMIT,
        ;
        if (size.x as u64) * (size.y as u64) > (usize::MAX as u64) {
            return Err(WorldError::InvalidMap);
        }
        let mut ground = Grid::new(size, Tile::Floor(FloorType::Dirt));
        proof {
            assert forall|p: Pos| ground.contains(p) implies ground.at(p) == Tile::Floor(FloorType::Dirt) by {
                ground.lemma_index_injective(p, p);
            }
        }
        let mut y: usize = 0;
        while y < rows.len()
            invariant
                y <= rows@.len(),
                ground.wf(),
                ground.spec_size() == size,
                size_fits(size),
                MapTemplate::tiles_before(rows@, y as int, 0),
                forall|p: Pos| ground.contains(p) ==> #[trigger] ground.at(p) == (if p.y < y {
                    MapTemplate::tile_of(rows@, p)
                } else {
                    Tile::Floor(FloorType::Dirt)
                }),
            decreases rows@.len() - y,
        {
            let line = chars_of(rows[y].as_str());
            let mut x: usize = 0;
            while x < line.len()
                invariant
                    y < rows@.len(),
                    x <= line@.len(),
                    line@ == rows@[y as int]@,
                    ground.wf(),
                    ground.spec_size() == size,
                    size_fits(size),
                    MapTemplate::tiles_before(rows@, y as int, x as int),
                    forall|p: Pos| ground.contains(p) ==> #[trigger] ground.at(p) == (if p.y < y || (p.y == y && p.x < x) {
                        MapTemplate::tile_of(rows@, p)
                    } else {
                        Tile::Floor(FloorType::Dirt)
                    }),
                decreases line@.len() - x,
            {
                let c = line[x];
                match Tile::from_char(c) {
                    Some(tile) => {
                        if x < GRID_LIMIT as usize && y < GRID_LIMIT as usize {
                            let ghost before = ground;
                            let pos = Pos::new(x as i64, y as i64);
                            let inside = ground.set(pos, tile);
                            proof {
                                assert forall|p: Pos| ground.contains(p) implies #[trigger] ground.at(p) == (if p.y < y || (p.y == y && p.x < x + 1) {
                                    MapTemplate::tile_of(rows@, p)
                                } else {
                                    Tile::Floor(FloorType::Dirt)
                                }) by {
                                    if p != pos {
                                        assert(before.contains(p));
                                        assert(ground.at(p) == before.at(p));
                                    } else {
                                        assert(inside);
                                        assert(rows@[y as int]@[x as int] == c);
                                        assert(MapTemplate::tile_of(rows@, p) == tile);
                                    }
                                }
                            }
                        } else {
                            proof {
                                assert forall|p: Pos| ground.contains(p) implies !(p.y == y && p.x == x) by {}
                            }
                        }
                    },
                    None => {
                        return Err(WorldError::MalformedTile(c));
                    },
                }
                x += 1;
            }
            y += 1;
        }
        proof {
            assert forall|p: Pos| ground.contains(p) implies #[trigger] ground.at(p) == MapTemplate::tile_of(rows@, p) by {}
        }
        if !ground.holds(spawnpoint) || monsterspawn.len() == 0 {
            return Err(WorldError::InvalidMap);
        }
        let mut i: usize = 0;
        while i < monsterspawn.len()
            invariant
                i <= monsterspawn@.len(),
                ground.spec_size() == size,
                size_fits(size),
                MapTemplate::tiles_before(rows@, rows@.len() as int, 0),
                forall|k: int| 0 <= k < i ==> ground.contains(#[trigger] monsterspawn@[k]),
            decreases monsterspawn@.len() - i,
        {
            if !ground.holds(monsterspawn[i]) {
                assert(!(0 <= monsterspawn@[i as int].x < size.x && 0 <= monsterspawn@[i as int].y < size.y));
                return Err(WorldError::InvalidMap);
            }
            i += 1;
        }
        let mut j: usize = 0;
        while j < creatures.len()
            invariant
                j <= creatures@.len(),
                ground.spec_size() == size,
                size_fits(size),
                MapTemplate::tiles_before(rows@, rows@.len() as int, 0),
                forall|k: int| 0 <= k < j ==> ground.contains((#[trigger] creatures@[k]).0),
            decreases creatures@.len() - j,
        {
            if !ground.holds(creatures[j].0) {
                assert(!(0 <= creatures@[j as int].0.x < size.x && 0 <= creatures@[j as int].0.y < size.y));
                return Err(WorldError::InvalidMap);
            }
            j += 1;
        }
        Ok(MapTemplate { size, ground, creatures, spawnpoint, monsterspawn })
    }
}

impl MapType {
    pub open spec fn wf(self) -> bool {
        match self {
            MapType::Builtin(_) => true,
            MapType::Custom(template) => template.wf(),
        }
    }
}

/// The tile of the square map at `pos`, before any lake: a sanctuary of
/// seven by seven cells round the middle with a gate on each side and
/// walls at its corners, rubble in place of the outermost corner walls
/// where there are pillars, dirt along the axes and grass elsewhere.
#[verifier::opaque]
pub open spec fn spec_square_tile(gamemode: GameMode, pos: Pos) -> Tile {
    let dx = spec_abs(pos.x - 32);
    let dy = spec_abs(pos.y - 32);
    if dx == 4 && dy == 4 {
        if gamemode == GameMode::PillarDefence {
            Tile::Wall(WallType::Rubble)
        } else {
            Tile::Wall(WallType::Wall)
        }
    } else if (dx == 3 && dy == 3) || (dx == 4 && dy == 3) || (dx == 4 && dy == 2) || (dx == 3 && dy == 4) || (dx
        == 2 && dy == 4) {
        Tile::Wall(WallType::Wall)
    } else if dx <= 3 && dy <= 3 {
        Tile::Sanctuary
    } else if dx <= 4 && dy <= 4 && dx != dy {
        Tile::Gate
    } else if dx <= 1 || dy <= 1 {
        Tile::Floor(FloorType::Dirt)
    } else {
        let pick = spec_randomize(pos.x + 1 + spec_randomize(pos.y + 1)) % 3;
        if pick == 0 {
            Tile::Floor(FloorType::Grass1)
        } else if pick == 1 {
            Tile::Floor(FloorType::Grass2)
        } else {
            Tile::Floor(FloorType::Grass3)
        }
    }
}

/// Where a lake of the square map can lie: well away from the middle.
pub open spec fn lake_zone(pos: Pos) -> bool {
    &&& 8 <= spec_abs(pos.x - 32) <= 27
    &&& 8 <= spec_abs(pos.y - 32) <= 27
}

/// Whether `t` is a square map for the game mode: 64 cells each way, the
/// spawn point in the middle, monsters spawning in the corners, a pillar
/// on each outermost corner of the sanctuary where the mode has pillars,
/// and each tile as `spec_square_tile` gives it or water of a lake. The
/// last clause says in full where the water lies: in at most one lake for
/// each quarter, see `lakes_dug`.
pub open spec fn is_square_map(t: MapTemplate, gamemode: GameMode) -> bool {
    &&& t.size == (Pos { x: 64, y: 64 })
    &&& t.spawnpoint == (Pos { x: 32, y: 32 })
    &&& t.monsterspawn@ == seq![Pos { x: 0, y: 0 }, Pos { x: 63, y: 0 }, Pos { x: 0, y: 63 }, Pos { x: 63, y: 63 }]
    &&& t.creatures@ == (if gamemode == GameMode::PillarDefence {
        seq![
            (Pos { x: 36, y: 36 }, CreatureType::Pillar),
            (Pos { x: 36, y: 28 }, CreatureType::Pillar),
            (Pos { x: 28, y: 36 }, CreatureType::Pillar),
            (Pos { x: 28, y: 28 }, CreatureType::Pillar),
        ]
    } else {
        Seq::<(Pos, CreatureType)>::empty()
    })
    &&& forall|p: Pos|
        t.ground.contains(p) ==> #[trigger] t.ground.at(p) == spec_square_tile(gamemode, p) || (t.ground.at(p)
            == Tile::Obstacle(ObstacleType::Water) && lake_zone(p))
    &&& exists|stages: Seq<Grid<Tile>>, lakes: Seq<Option<(Pos, Seq<Direction>)>>| #[trigger]
        lakes_dug(t.ground, gamemode, stages, lakes)
}

/// The tile of the square map at `pos`, before any lake.
pub fn square_tile(gamemode: GameMode, pos: Pos) -> (tile: Tile)
    requires
        0 <= pos.x < 64,
        0 <= pos.y < 64,
    ensures
        tile == spec_square_tile(gamemode, pos),
{
    reveal(spec_square_tile);
    let dx = abs(pos.x - 32);
    let dy = abs(pos.y - 32);
    if dx == 4 && dy == 4 {
        if gamemode.has_pillars() {
            Tile::Wall(WallType::Rubble)
        } else {
            Tile::Wall(WallType::Wall)
        }
    } else if (dx == 3 && dy == 3) || (dx == 4 && dy == 3) || (dx == 4 && dy == 2) || (dx == 3 && dy == 4) || (dx
        == 2 && dy == 4) {
        Tile::Wall(WallType::Wall)
    } else if dx <= 3 && dy <= 3 {
        Tile::Sanctuary
    } else if dx <= 4 && dy <= 4 && dx != dy {
        Tile::Gate
    } else if dx <= 1 || dy <= 1 {
        Tile::Floor(FloorType::Dirt)
    } else {
        let inner = randomize((pos.y + 1) as u32);
        let pick = randomize((pos.x + 1) as u32 + inner) % 3;
        if pick == 0 {
            Tile::Floor(FloorType::Grass1)
        } else if pick == 1 {
            Tile::Floor(FloorType::Grass2)
        } else {
            Tile::Floor(FloorType::Grass3)
        }
    }
}

/// The number of steps from the start of a lake to a cell.
pub open spec fn lake_reach(start: Pos, p: Pos) -> int {
    spec_abs(p.x - start.x) + spec_abs(p.y - start.y)
}

/// The cell that the walk of a lake has come to after `k` of its turns.
pub open spec fn lake_walk(start: Pos, turns: Seq<Direction>, k: int) -> Pos
    decreases k,
{
    if k <= 0 {
        start
    } else {
        lake_walk(start, turns, k - 1).step(turns[k - 1])
    }
}

/// The tiles of the ground once the first `k` cells of the walk of a lake
/// are water.
pub open spec fn flooded(before: Grid<Tile>, start: Pos, turns: Seq<Direction>, k: int) -> Seq<Tile>
    decreases k,
{
    if k <= 0 {
        before.cells()
    } else {
        flooded(before, start, turns, k - 1).update(
            before.index_of(lake_walk(start, turns, k - 1)),
            Tile::Obstacle(ObstacleType::Water),
        )
    }
}

/// Whether `after` is the ground `before` with a lake dug into the
/// quarter that `dx` and `dy` point to. The lake starts on `start`, 12 to
/// 23 cells from the middle along each axis, and follows a walk with the
/// given turns: each cell of the walk becomes water before the walk turns
/// on, and the walk ends with the turn that takes it more than four steps
/// from its start, and with the sixteenth turn at the latest.
pub open spec fn is_lake(
    before: Grid<Tile>,
    after: Grid<Tile>,
    dx: int,
    dy: int,
    start: Pos,
    turns: Seq<Direction>,
) -> bool {
    &&& 12 <= spec_abs(start.x - 32) <= 23
    &&& 12 <= spec_abs(start.y - 32) <= 23
    &&& spec_signum(start.x - 32) == dx
    &&& spec_signum(start.y - 32) == dy
    &&& 1 <= turns.len() <= 16
    &&& forall|k: int| 0 <= k < turns.len() ==> lake_reach(start, #[trigger] lake_walk(start, turns, k)) <= 4
    &&& (turns.len() == 16 || lake_reach(start, lake_walk(start, turns, turns.len() as int)) > 4)
    &&& after.spec_size() == before.spec_size()
    &&& after.cells() == flooded(before, start, turns, turns.len() as int)
}

/// The walk of a lake goes by the turns it has made so far.
pub proof fn lemma_lake_walk_prefix(start: Pos, a: Seq<Direction>, b: Seq<Direction>, k: int)
    requires
        k <= a.len(),
        k <= b.len(),
        forall|i: int| 0 <= i < k ==> a[i] == b[i],
    ensures
        lake_walk(start, a, k) == lake_walk(start, b, k),
    decreases k,
{
    if k > 0 {
        lemma_lake_walk_prefix(start, a, b, k - 1);
    }
}

/// The water of a lake goes by the turns that the walk has made so far.
pub proof fn lemma_flooded_prefix(before: Grid<Tile>, start: Pos, a: Seq<Direction>, b: Seq<Direction>, k: int)
    requires
        k <= a.len(),
        k <= b.len(),
        forall|i: int| 0 <= i < k ==> a[i] == b[i],
    ensures
        flooded(before, start, a, k) == flooded(before, start, b, k),
    decreases k,
{
    if k > 0 {
        lemma_flooded_prefix(before, start, a, b, k - 1);
        lemma_lake_walk_prefix(start, a, b, k - 1);
    }
}

/// Whether `after` is the ground `before` once quarter `q` of the square
/// map has had its turn: with the lake given dug into it, see `is_lake`,
/// and the same where there is none. The first two quarters lie to the
/// east of the middle, the first and the third to the south.
pub open spec fn quarter_dug(before: Grid<Tile>, after: Grid<Tile>, q: int, lake: Option<(Pos, Seq<Direction>)>) -> bool {
    match lake {
        Some((start, turns)) => is_lake(
            before,
            after,
            if q < 2 {
                1
            } else {
                -1
            },
            if q % 2 == 0 {
                1
            } else {
                -1
            },
            start,
            turns,
        ),
        None => after.spec_size() == before.spec_size() && after.cells() == before.cells(),
    }
}

/// Whether `ground` is the ground of a square map with the lakes given,
/// one or none for each of the four quarters: `stages` begins with the
/// ground as `spec_square_tile` gives it and holds the ground after the
/// turn of each quarter, and the last of them has the tiles of `ground`.
pub open spec fn lakes_dug(
    ground: Grid<Tile>,
    gamemode: GameMode,
    stages: Seq<Grid<Tile>>,
    lakes: Seq<Option<(Pos, Seq<Direction>)>>,
) -> bool {
    &&& stages.len() == 5
    &&& lakes.len() == 4
    &&& stages[0].wf()
    &&& stages[0].spec_size() == (Pos { x: 64, y: 64 })
    &&& forall|p: Pos| stages[0].contains(p) ==> #[trigger] stages[0].at(p) == spec_square_tile(gamemode, p)
    &&& forall|q: int| 0 <= q < 4 ==> quarter_dug(stages[q], stages[q + 1], q, #[trigger] lakes[q])
    &&& ground.spec_size() == stages[4].spec_size()
    &&& ground.cells() == stages[4].cells()
}

/// The number of cells that the walk of a lake turns to water, counted
/// from its cell `k` on: the walk goes on from cell to cell until it has
/// watered sixteen, has no turn left, or has come more than four steps
/// from its start.
pub open spec fn lake_span(start: Pos, turns: Seq<Direction>, k: int) -> int
    decreases 16 - k,
{
    if k >= 16 || k > turns.len() || lake_reach(start, lake_walk(start, turns, k)) > 4 {
        k
    } else {
        lake_span(start, turns, k + 1)
    }
}

/// The walk of a lake waters at most sixteen cells, each within four
/// steps of its start, and ends as `lake_span` says.
pub proof fn lemma_lake_span(start: Pos, turns: Seq<Direction>, k: int)
    requires
        0 <= k <= 16,
    ensures
        k <= lake_span(start, turns, k) <= 16,
        forall|i: int| k <= i < lake_span(start, turns, k) ==> lake_reach(start, #[trigger] lake_walk(start, turns, i)) <= 4 && i <= turns.len(),
        lake_span(start, turns, k) == 16 || lake_span(start, turns, k) > turns.len() || lake_reach(
            start,
            lake_walk(start, turns, lake_span(start, turns, k)),
        ) > 4,
    decreases 16 - k,
{
    if !(k >= 16 || k > turns.len() || lake_reach(start, lake_walk(start, turns, k)) > 4) {
        lemma_lake_span(start, turns, k + 1);
    }
}

/// Digs a lake into the ground along the walk that starts on `start`
/// and takes the turns given: each cell of the walk becomes water before
/// the walk turns on, as far as `lake_span` says.
pub fn dig_lake_with(ground: &mut Grid<Tile>, start: Pos, turns: &Vec<Direction>)
    requires
        old(ground).wf(),
        forall|k: int| 0 <= k < lake_span(start, turns@, 1) ==> old(ground).contains(#[trigger] lake_walk(start, turns@, k)),
    ensures
        final(ground).wf(),
        final(ground).spec_size() == old(ground).spec_size(),
        final(ground).cells() == flooded(*old(ground), start, turns@, lake_span(start, turns@, 1)),
        forall|p: Pos|
            old(ground).contains(p) ==> #[trigger] final(ground).at(p) == old(ground).at(p) || (final(ground).at(p)
                == Tile::Obstacle(ObstacleType::Water) && lake_reach(start, p) <= 4),
{
    let mut p = start;
    let mut going = true;
    let mut n: usize = 0;
    proof {
        lemma_lake_span(start, turns@, 1);
    }
    while going
        invariant
            n <= 16,
            ground.wf(),
            ground.spec_size() == old(ground).spec_size(),
            forall|k: int| 0 <= k < lake_span(start, turns@, 1) ==> old(ground).contains(#[trigger] lake_walk(start, turns@, k)),
            going ==> n < 16 && n <= turns@.len() && p == lake_walk(start, turns@, n as int) && lake_reach(start, p) <= 4
                && lake_span(start, turns@, 1) == lake_span(start, turns@, n + 1),
            !going ==> lake_span(start, turns@, 1) == n,
            ground.cells() == flooded(*old(ground), start, turns@, n as int),
            forall|q: Pos|
                old(ground).contains(q) ==> #[trigger] ground.at(q) == old(ground).at(q) || (ground.at(q)
                    == Tile::Obstacle(ObstacleType::Water) && lake_reach(start, q) <= 4),
        decreases
                (if going {
                    17 - n
                } else {
                    0
                }),
    {
        let ghost before = *ground;
        proof {
            lemma_lake_span(start, turns@, n + 1);
            assert(old(ground).contains(lake_walk(start, turns@, n as int)));
        }
        ground.set_unchecked(p, Tile::Obstacle(ObstacleType::Water));
        proof {
            assert(before.index_of(p) == old(ground).index_of(lake_walk(start, turns@, n as int)));
            assert forall|q: Pos|
                old(ground).contains(q) implies
                #[trigger] ground.at(q) == old(ground).at(q) || (ground.at(q) == Tile::Obstacle(ObstacleType::Water) && lake_reach(start, q) <= 4) by {
                if q != p {
                    assert(before.contains(q));
                    assert(ground.at(q) == before.at(q));
                }
            }
        }
        n += 1;
        if n < 16 && n <= turns.len() {
            p = p + turns[n - 1];
            if start.distance_to(p) > 4 {
                going = false;
            }
        } else {
            going = false;
        }
    }
}

/// Digs a lake into one quarter of the square map: up to sixteen cells of
/// water along a random walk that stays within four steps of its start,
/// see `is_lake`.
fn dig_lake(ground: &mut Grid<Tile>, gamemode: GameMode, dx: i64, dy: i64, dice: &mut Dice)
    requires
        old(ground).wf(),
        old(ground).spec_size() == (Pos { x: 64, y: 64 }),
        dx == 1 || dx == -1,
        dy == 1 || dy == -1,
        forall|p: Pos|
            old(ground).contains(p) ==> #[trigger] old(ground).at(p) == spec_square_tile(gamemode, p) || (old(ground).at(p) == Tile::Obstacle(ObstacleType::Water) && lake_zone(p)),
    ensures
        final(ground).wf(),
        final(ground).spec_size() == (Pos { x: 64, y: 64 }),
        exists|start: Pos, turns: Seq<Direction>| #[trigger]
            is_lake(*old(ground), *final(ground), dx as int, dy as int, start, turns),
        forall|p: Pos|
            final(ground).contains(p) ==> #[trigger] final(ground).at(p) == spec_square_tile(gamemode, p) || (final(ground).at(p) == Tile::Obstacle(ObstacleType::Water) && lake_zone(p)),
{
    let spawnpoint = Pos::new(32, 32);
    let lx = dice.roll(12, 23);
    let ly = dice.roll(12, 23);
    assert(lx * dx == (if dx == 1 {
        lx as int
    } else {
        -lx
    })) by (nonlinear_arith)
        requires
            dx == 1 || dx == -1,
    ;
    assert(ly * dy == (if dy == 1 {
        ly as int
    } else {
        -ly
    })) by (nonlinear_arith)
        requires
            dy == 1 || dy == -1,
    ;
    let lakepos = Pos::new(lx * dx, ly * dy) + spawnpoint;
    let mut turns: Vec<Direction> = Vec::new();
    let mut t: usize = 0;
    while t < 16
        invariant
            t <= 16,
            turns@.len() == t,
        decreases 16 - t,
    {
        let turn = dice.index(4);
        turns.push(Direction::nth(turn));
        t += 1;
    }
    proof {
        lemma_lake_span(lakepos, turns@, 1);
    }
    dig_lake_with(ground, lakepos, &turns);
    proof {
        let span = lake_span(lakepos, turns@, 1);
        let walked = turns@.subrange(0, span);
        lemma_flooded_prefix(*old(ground), lakepos, walked, turns@, span);
        lemma_lake_walk_prefix(lakepos, walked, turns@, span);
        assert forall|k: int| 0 <= k < walked.len() implies lake_reach(lakepos, #[trigger] lake_walk(lakepos, walked, k)) <= 4 by {
            lemma_lake_walk_prefix(lakepos, walked, turns@, k);
            assert(lake_reach(lakepos, lake_walk(lakepos, turns@, k)) <= 4);
        }
        assert(is_lake(*old(ground), *ground, dx as int, dy as int, lakepos, walked));
    }
}

/// The square map for the game mode, with a lake in each quarter that the
/// coin picks.
pub fn create_square_map(gamemode: GameMode, dice: &mut Dice) -> (map: MapTemplate)
    ensures
        map.wf(),
        is_square_map(map, gamemode),
{
    let size = Pos::new(64, 64);
    let spawnpoint = Pos::new(32, 32);
    let mut ground = Grid::new(size, Tile::Floor(FloorType::Dirt));
    let mut y: i64 = 0;
    while y < 64
        invariant
            0 <= y <= 64,
            ground.wf(),
            ground.spec_size() == size,
            size == (Pos { x: 64, y: 64 }),
            forall|p: Pos| ground.contains(p) && p.y < y ==> #[trigger] ground.at(p) == spec_square_tile(gamemode, p),
        decreases 64 - y,
    {
        let mut x: i64 = 0;
        while x < 64
            invariant
                0 <= x <= 64,
                0 <= y < 64,
                ground.wf(),
                ground.spec_size() == size,
                size == (Pos { x: 64, y: 64 }),
                forall|p: Pos|
                    ground.contains(p) && (p.y < y || (p.y == y && p.x < x)) ==> #[trigger] ground.at(p)
                        == spec_square_tile(gamemode, p),
            decreases 64 - x,
        {
            let pos = Pos::new(x, y);
            let ghost before = ground;
            ground.set_unchecked(pos, square_tile(gamemode, pos));
            proof {
                assert forall|p: Pos|
                    ground.contains(p) && (p.y < y || (p.y == y && p.x < x + 1)) implies
                    #[trigger] ground.at(p) == spec_square_tile(gamemode, p) by {
                    if p != pos {
                        assert(before.contains(p));
                    }
                }
            }
            x += 1;
        }
        y += 1;
    }
    let mut creatures: Vec<(Pos, CreatureType)> = Vec::new();
    if gamemode.has_pillars() {
        creatures.push((Pos::new(36, 36), CreatureType::Pillar));
        creatures.push((Pos::new(36, 28), CreatureType::Pillar));
        creatures.push((Pos::new(28, 36), CreatureType::Pillar));
        creatures.push((Pos::new(28, 28), CreatureType::Pillar));
    }
    let mut monsterspawn: Vec<Pos> = Vec::new();
    monsterspawn.push(Pos::new(0, 0));
    monsterspawn.push(Pos::new(63, 0));
    monsterspawn.push(Pos::new(0, 63));
    monsterspawn.push(Pos::new(63, 63));
    let ghost mut stages: Seq<Grid<Tile>> = seq![ground];
    let ghost mut lakes: Seq<Option<(Pos, Seq<Direction>)>> = Seq::empty();
    let mut quarter: usize = 0;
    while quarter < 4
        invariant
            quarter <= 4,
            ground.wf(),
            ground.spec_size() == (Pos { x: 64, y: 64 }),
            forall|p: Pos|
                ground.contains(p) ==> #[trigger] ground.at(p) == spec_square_tile(gamemode, p) || (ground.at(p)
                    == Tile::Obstacle(ObstacleType::Water) && lake_zone(p)),
            stages.len() == quarter + 1,
            lakes.len() == quarter,
            stages[0].wf(),
            stages[0].spec_size() == (Pos { x: 64, y: 64 }),
            forall|p: Pos| stages[0].contains(p) ==> #[trigger] stages[0].at(p) == spec_square_tile(gamemode, p),
            forall|q: int| 0 <= q < quarter ==> quarter_dug(stages[q], stages[q + 1], q, #[trigger] lakes[q]),
            stages[quarter as int] == ground,
        decreases 4 - quarter,
    {
        let ghost before = ground;
        let ghost dug = stages;
        let ghost known = lakes;
        let dx: i64 = if quarter < 2 {
            1
        } else {
            -1
        };
        let dy: i64 = if quarter % 2 == 0 {
            1
        } else {
            -1
        };
        if dice.coin() {
            dig_lake(&mut ground, gamemode, dx, dy, dice);
            proof {
                let (start, turns) = choose|start: Pos, turns: Seq<Direction>| #[trigger]
                    is_lake(before, ground, dx as int, dy as int, start, turns);
                lakes = known.push(Some((start, turns)));
            }
        } else {
            proof {
                lakes = known.push(None);
            }
        }
        proof {
            stages = dug.push(ground);
            assert(quarter_dug(stages[quarter as int], stages[quarter + 1], quarter as int, lakes[quarter as int]));
            assert forall|q: int| 0 <= q < quarter + 1 implies quarter_dug(stages[q], stages[q + 1], q, #[trigger] lakes[q]) by {
                if q < quarter {
                    assert(quarter_dug(dug[q], dug[q + 1], q, known[q]));
                }
            }
        }
        quarter += 1;
    }
    let map = MapTemplate { size, ground, creatures, spawnpoint, monsterspawn };
    proof {
        assert(lakes_dug(map.ground, gamemode, stages, lakes));
        assert(map.monsterspawn@ =~= seq![Pos { x: 0, y: 0 }, Pos { x: 63, y: 0 }, Pos { x: 0, y: 63 }, Pos { x: 63, y: 63 }]);
        if gamemode == GameMode::PillarDefence {
            assert(map.creatures@ =~= seq![
                (Pos { x: 36, y: 36 }, CreatureType::Pillar),
                (Pos { x: 36, y: 28 }, CreatureType::Pillar),
                (Pos { x: 28, y: 36 }, CreatureType::Pillar),
                (Pos { x: 28, y: 28 }, CreatureType::Pillar),
            ]);
        } else {
            assert(map.creatures@ =~= Seq::<(Pos, CreatureType)>::empty());
        }
    }
    map
}

/// The template for a kind of map: the square map made anew, or a copy of
/// a custom template.
pub fn create_map(typ: &MapType, gamemode: GameMode, dice: &mut Dice) -> (map: MapTemplate)
    requires
        typ.wf(),
    ensures
        map.wf(),
        match *typ {
            MapType::Builtin(BuiltinMap::Square) => is_square_map(map, gamemode),
            MapType::Custom(template) => map.same_as(template),
        },
{
    match typ {
        MapType::Builtin(BuiltinMap::Square) => create_square_map(gamemode, dice),
        MapType::Custom(template) => template.copy(),
    }
}

} // verus!
