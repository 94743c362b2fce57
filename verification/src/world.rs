use vstd::prelude::*;
use crate::controls::{Action, Control};
use crate::creature::{Alignment, Creature, CreatureType};
use crate::dice::Dice;
use crate::distance::{distance_map, is_distance_field};
use crate::errors::WorldError;
use crate::gamemode::GameMode;
use crate::grid::Grid;
use crate::holder::Holder;
use crate::item::Item;
use crate::mapgen::{BuiltinMap, create_map, is_square_map, MapTemplate, MapType, size_fits};
use crate::player::Player;
use crate::playerid::PlayerId;
use crate::pos::Pos;
use crate::posmap::PosMap;
use crate::sprite::Sprite;
use crate::tile::Tile;
use crate::timestamp::Timestamp;
use crate::weapon::Bullet;

verus! {

/// Where a round stands. The numbers count the ticks that a pause or the
/// time after a lost round still lasts.
#[derive(Debug, Clone, Copy, PartialEq, Eq, Structural)]
pub enum RoundState {
    Running,
    Paused(i64),
    GameOver(i64),
}

impl RoundState {
    /// A pause or the time after a lost round lasts at least one more tick.
    pub open spec fn wf(self) -> bool {
        match self {
            RoundState::Running => true,
            RoundState::Paused(n) => n >= 1,
            RoundState::GameOver(n) => n >= 1,
        }
    }

    /// The state after one more tick of a pause: one tick less of it, and
    /// running when none is left. Other states stay.
    pub open spec fn spec_unpause(self) -> RoundState {
        match self {
            RoundState::Paused(n) => if n > 1 {
                RoundState::Paused((n - 1) as i64)
            } else {
                RoundState::Running
            },
            other => other,
        }
    }

    /// The state after `k` more ticks of a pause.
    pub open spec fn after(self, k: nat) -> RoundState
        decreases k,
    {
        if k == 0 {
            self
        } else {
            self.spec_unpause().after((k - 1) as nat)
        }
    }

    pub fn unpause(self) -> (r: RoundState)
        ensures
            r == self.spec_unpause(),
            self.wf() ==> r.wf(),
    {
        match self {
            RoundState::Paused(n) => {
                if n > 1 {
                    RoundState::Paused(n - 1)
                } else {
                    RoundState::Running
                }
            },
            other => other,
        }
    }

    /// A pause of `n` ticks counts down one by one and then ends: after `k`
    /// ticks `n - k` are left, so that the state is `Paused(1)` after
    /// `n - 1` ticks and at no other time.
    pub proof fn lemma_countdown(n: i64, k: nat)
        requires
            n >= 1,
        ensures
            RoundState::Paused(n).after(k) == (if k < n {
                RoundState::Paused((n - k) as i64)
            } else {
                RoundState::Running
            }),
            RoundState::Paused(n).after(k) == RoundState::Paused(1) <==> k == n - 1,
        decreases k,
    {
        if k > 0 {
            if n > 1 {
                RoundState::lemma_countdown((n - 1) as i64, (k - 1) as nat);
            } else {
                RoundState::lemma_running_stays((k - 1) as nat);
            }
        }
    }

    /// A running round is not changed by the ticks of a pause.
    pub proof fn lemma_running_stays(k: nat)
        ensures
            RoundState::Running.after(k) == RoundState::Running,
        decreases k,
    {
        if k > 0 {
            RoundState::lemma_running_stays((k - 1) as nat);
        }
    }
}

/// The cells on which creatures stand that monsters of the given kind
/// look for: buildings of the players' side, or creatures of it that are
/// none.
pub open spec fn sources(creatures: Seq<Creature>, buildings: bool) -> Seq<Pos>
    decreases creatures.len(),
{
    if creatures.len() == 0 {
        Seq::empty()
    } else {
        let c = creatures.last();
        if c.is_building == buildings && c.alignment != Alignment::Monsters {
            sources(creatures.drop_last(), buildings).push(c.pos)
        } else {
            sources(creatures.drop_last(), buildings)
        }
    }
}

/// Whether a creature is one that `sources` lists among the buildings.
pub open spec fn is_stronghold(c: Creature) -> bool {
    c.is_building && c.alignment != Alignment::Monsters
}

/// Creatures that agree in what makes a building, and in the cells of
/// their buildings, have the same buildings to look for.
pub proof fn lemma_sources_agree(a: Seq<Creature>, b: Seq<Creature>)
    requires
        a.len() == b.len(),
        forall|k: int| 0 <= k < a.len() ==> is_stronghold(#[trigger] a[k]) == is_stronghold(b[k]),
        forall|k: int| 0 <= k < a.len() && is_stronghold(#[trigger] a[k]) ==> a[k].pos == b[k].pos,
    ensures
        sources(a, true) == sources(b, true),
    decreases a.len(),
{
    if a.len() > 0 {
        let fa = a.drop_last();
        let fb = b.drop_last();
        assert forall|k: int| 0 <= k < fa.len() implies is_stronghold(#[trigger] fa[k]) == is_stronghold(fb[k]) by {
            assert(fa[k] == a[k] && fb[k] == b[k]);
        }
        assert forall|k: int| 0 <= k < fa.len() && is_stronghold(#[trigger] fa[k]) implies fa[k].pos == fb[k].pos by {
            assert(fa[k] == a[k] && fb[k] == b[k]);
        }
        lemma_sources_agree(fa, fb);
        assert(is_stronghold(a[a.len() - 1]) == is_stronghold(b[a.len() - 1]));
    }
}

/// Creatures that come behind the others and are no buildings of the
/// players' side add nothing to the buildings to look for.
pub proof fn lemma_sources_grow(a: Seq<Creature>, b: Seq<Creature>)
    requires
        a.len() <= b.len(),
        b.subrange(0, a.len() as int) == a,
        forall|k: int| a.len() <= k < b.len() ==> !is_stronghold(#[trigger] b[k]),
    ensures
        sources(b, true) == sources(a, true),
    decreases b.len(),
{
    if a.len() < b.len() {
        let fb = b.drop_last();
        assert(fb.subrange(0, a.len() as int) =~= a);
        assert forall|k: int| a.len() <= k < fb.len() implies !is_stronghold(#[trigger] fb[k]) by {
            assert(fb[k] == b[k]);
        }
        lemma_sources_grow(a, fb);
        assert(!is_stronghold(b[b.len() - 1]));
    } else {
        assert(b =~= a);
    }
}

/// A creature that is no building of the players' side can leave
/// without any change to the buildings to look for.
pub proof fn lemma_sources_remove(a: Seq<Creature>, i: int)
    requires
        0 <= i < a.len(),
        !is_stronghold(a[i]),
    ensures
        sources(a.remove(i), true) == sources(a, true),
    decreases a.len(),
{
    let b = a.remove(i);
    if i == a.len() - 1 {
        assert(b =~= a.drop_last());
    } else {
        let fa = a.drop_last();
        assert(b.drop_last() =~= fa.remove(i));
        assert(b.last() == a.last());
        lemma_sources_remove(fa, i);
    }
}

/// Whether a drawing can be one of this ground: it has entries for cells
/// of the ground only, and in each at least two sprites, that of the tile
/// and one above it.
pub open spec fn fits_ground(ground: Grid<Tile>, drawing: PosMap<Vec<Sprite>>) -> bool {
    &&& drawing.wf()
    &&& forall|p: Pos| #[trigger] drawing.contains(p) ==> ground.contains(p) && drawing.lookup(p).unwrap()@.len() >= 2
}

/// The whole state of the game.
#[derive(Debug)]
pub struct World {
    pub time: Timestamp,
    pub size: Pos,
    pub ground: Grid<Tile>,
    /// The players in the order in which they joined, which is the
    /// order in which they get their bodies.
    pub players: Vec<(PlayerId, Player)>,
    pub creatures: Holder<Creature>,
    pub bullets: Vec<Bullet>,
    pub particles: PosMap<Sprite>,
    pub spawnpoint: Pos,
    pub monsterspawn: Vec<Pos>,
    pub items: PosMap<Item>,
    pub wave: usize,
    pub to_spawn: Vec<CreatureType>,
    pub round_state: RoundState,
    pub gamemode: GameMode,
    pub map: MapType,
    pub building_distances: Grid<Option<usize>>,
    pub player_distances: Grid<Option<usize>>,
    /// What was drawn at the last view, to tell what has changed since.
    pub drawing: Option<PosMap<Vec<Sprite>>>,
    pub dice: Dice,
}

impl World {
    /// The place of player `id` in the order of joining.
    pub open spec fn player_index(self, id: PlayerId) -> Option<int> {
        if exists|i: int| 0 <= i < self.players@.len() && (#[trigger] self.players@[i]).0 == id {
            Some(choose|i: int| 0 <= i < self.players@.len() && (#[trigger] self.players@[i]).0 == id)
        } else {
            None
        }
    }

    pub open spec fn has_player(self, id: PlayerId) -> bool {
        self.player_index(id) is Some
    }

    /// How many creatures the map puts into the world when it is built.
    pub open spec fn seed_count(self) -> int {
        match self.map {
            MapType::Builtin(_) => 4,
            MapType::Custom(template) => template.creatures@.len() as int,
        }
    }

    /// The invariant of the world: its parts are well formed and fit
    /// together, every creature stands on the ground, no player has joined
    /// twice, every plan can be carried out, and the body of a player is
    /// 0 or a key that was given to a creature.
    pub open spec fn wf(self) -> bool {
        &&& self.ground.wf()
        &&& self.ground.spec_size() == self.size
        &&& size_fits(self.size)
        &&& self.ground.contains(self.spawnpoint)
        &&& self.monsterspawn@.len() > 0
        &&& forall|i: int| 0 <= i < self.monsterspawn@.len() ==> self.ground.contains(#[trigger] self.monsterspawn@[i])
        &&& self.creatures.wf()
        &&& forall|i: int|
            0 <= i < self.creatures.items().len() ==> (#[trigger] self.creatures.items()[i]).wf()
                && self.ground.contains(self.creatures.items()[i].pos)
        &&& forall|i: int| 0 <= i < self.bullets@.len() ==> (#[trigger] self.bullets@[i]).wf()
        &&& self.particles.wf()
        &&& self.items.wf()
        &&& (self.drawing matches Some(drawing) ==> fits_ground(self.ground, drawing))
        &&& forall|i: int, j: int|
            0 <= i < j < self.players@.len() ==> (#[trigger] self.players@[i]).0 != (#[trigger] self.players@[j]).0
        &&& forall|i: int|
            0 <= i < self.players@.len() ==> ((#[trigger] self.players@[i]).1.plan matches Some(control)
                ==> control.wf())
        &&& forall|i: int| 0 <= i < self.players@.len() ==> (#[trigger] self.players@[i]).1.body <= self.creatures.counter()
        &&& self.round_state.wf()
        &&& self.map.wf()
        &&& self.building_distances.wf()
        &&& self.building_distances.spec_size() == self.size
        &&& self.player_distances.wf()
        &&& self.player_distances.spec_size() == self.size
        &&& 0 <= self.time.0
    }

    /// Whether the distances to the buildings are those of the buildings
    /// as they stand, and no building waits to enter the world.
    pub open spec fn charted(self) -> bool {
        &&& is_distance_field(self.ground, sources(self.creatures.items(), true), self.building_distances)
        &&& forall|i: int| 0 <= i < self.to_spawn@.len() ==> !((#[trigger] self.to_spawn@[i]) is Pillar)
    }

    /// Whether the counters of the world have room for one more tick:
    /// the time, the wave, and the keys for the creatures that may enter.
    pub open spec fn has_room(self) -> bool {
        &&& self.time.0 < i64::MAX
        &&& self.wave + 5 <= usize::MAX
        &&& self.creatures.counter() + self.players@.len() + self.seed_count() + 1 <= usize::MAX
    }

    /// Whether no two creatures stand on the same cell.
    pub open spec fn cells_distinct(creatures: Seq<Creature>) -> bool {
        forall|i: int, j: int| 0 <= i < j < creatures.len() ==> (#[trigger] creatures[i]).pos != (#[trigger] creatures[j]).pos
    }

    /// Whether the world is as it is built from template `t`: the ground,
    /// the spawn cells and one new creature for each one of the template.
    pub open spec fn built_from(self, t: MapTemplate) -> bool {
        &&& self.size == t.size
        &&& self.ground.spec_size() == t.ground.spec_size()
        &&& self.ground.cells() == t.ground.cells()
        &&& self.spawnpoint == t.spawnpoint
        &&& self.monsterspawn@ == t.monsterspawn@
        &&& self.creatures.items().len() == t.creatures@.len()
        &&& forall|i: int|
            0 <= i < t.creatures@.len() ==> (#[trigger] self.creatures.items()[i]).is_new(
                t.creatures@[i].1,
                t.creatures@[i].0,
            )
    }

    /// Whether the world is as a new round finds it: built from a
    /// template of its map, with the distances to its buildings worked out,
    /// and with no bullets, particles, items, wave or drawing.
    pub open spec fn is_fresh(self) -> bool {
        &&& exists|t: MapTemplate|
            t.wf() && #[trigger] self.built_from(t) && (match self.map {
                MapType::Builtin(BuiltinMap::Square) => is_square_map(t, self.gamemode),
                MapType::Custom(template) => t.same_as(template),
            })
        &&& is_distance_field(self.ground, sources(self.creatures.items(), true), self.building_distances)
        &&& self.bullets@.len() == 0
        &&& self.particles.keys().len() == 0
        &&& self.items.keys().len() == 0
        &&& self.wave == 0
        &&& self.to_spawn@.len() == 0
        &&& self.round_state == RoundState::Running
        &&& self.drawing is None
    }

    /// A world for the game mode on the map, at time 0 and without
    /// players. Its random decisions follow from `seed`. The creatures of
    /// the map have the first keys, so that a world on a built-in map has
    /// room for its first tick.
    pub fn new(gamemode: GameMode, map: MapType, seed: u64) -> (world: World)
        requires
            map.wf(),
            match map {
                MapType::Builtin(_) => true,
                MapType::Custom(template) => template.creatures@.len() + 1 < usize::MAX,
            },
        ensures
            world.wf(),
            world.is_fresh(),
            world.charted(),
            world.gamemode == gamemode,
            world.map == map,
            world.time == Timestamp(0),
            world.players@.len() == 0,
            world.creatures.items().len() <= world.seed_count(),
            world.creatures.counter() == world.creatures.items().len() + 1,
            map is Builtin ==> world.has_room(),
    {
        let mut world = World {
            size: Pos::new(1, 1),
            spawnpoint: Pos::new(0, 0),
            ground: Grid::new(Pos::new(1, 1), Tile::Sanctuary),
            players: Vec::new(),
            creatures: Holder::new(),
            bullets: Vec::new(),
            time: Timestamp(0),
            particles: PosMap::new(),
            monsterspawn: Vec::new(),
            items: PosMap::new(),
            wave: 0,
            to_spawn: Vec::new(),
            round_state: RoundState::Running,
            gamemode,
            map,
            building_distances: Grid::new(Pos::new(1, 1), None),
            player_distances: Grid::new(Pos::new(1, 1), None),
            drawing: None,
            dice: Dice::seeded(seed),
        };
        world.reset();
        world
    }

    /// The positions of the creatures that monsters look for, see `sources`.
    pub fn source_cells(&self, buildings: bool) -> (cells: Vec<Pos>)
        requires
            self.creatures.wf(),
        ensures
            cells@ == sources(self.creatures.items(), buildings),
    {
        let mut cells: Vec<Pos> = Vec::new();
        let n = self.creatures.len();
        let mut i: usize = 0;
        while i < n
            invariant
                self.creatures.wf(),
                n == self.creatures.items().len(),
                i <= n,
                cells@ == sources(self.creatures.items().subrange(0, i as int), buildings),
            decreases n - i,
        {
            let c = self.creatures.value_at(i);
            proof {
                let next = self.creatures.items().subrange(0, i + 1);
                assert(next.drop_last() =~= self.creatures.items().subrange(0, i as int));
                assert(next.last() == *c);
            }
            if c.is_building == buildings && c.alignment != Alignment::Monsters {
                cells.push(c.pos);
            }
            i += 1;
        }
        assert(self.creatures.items().subrange(0, n as int) =~= self.creatures.items());
        cells
    }

    /// Works out the distances to the players' creatures that are no buildings.
    pub fn compute_player_distances(&mut self)
        requires
            old(self).wf(),
        ensures
            *final(self) == (World { player_distances: final(self).player_distances, ..*old(self) }),
            is_distance_field(final(self).ground, sources(final(self).creatures.items(), false), final(self).player_distances),
            final(self).wf(),
    {
        let cells = self.source_cells(false);
        self.player_distances = distance_map(&self.ground, &cells);
    }

    /// Works out the distances to the players' buildings.
    pub fn compute_building_distances(&mut self)
        requires
            old(self).wf(),
        ensures
            *final(self) == (World { building_distances: final(self).building_distances, ..*old(self) }),
            is_distance_field(final(self).ground, sources(final(self).creatures.items(), true), final(self).building_distances),
            final(self).wf(),
    {
        let cells = self.source_cells(true);
        self.building_distances = distance_map(&self.ground, &cells);
    }

    /// Begins a new round: builds the world anew from its map. The
    /// players, the time and the keys given to creatures so far stay.
    #[verifier::loop_isolation(false)]
    pub fn reset(&mut self)
        requires
            old(self).map.wf(),
            old(self).creatures.wf(),
            old(self).creatures.counter() + old(self).seed_count() < usize::MAX,
            forall|i: int, j: int|
                0 <= i < j < old(self).players@.len() ==> (#[trigger] old(self).players@[i]).0 != (#[trigger] old(self).players@[j]).0,
            forall|i: int|
                0 <= i < old(self).players@.len() ==> ((#[trigger] old(self).players@[i]).1.plan matches Some(
                    control,
                ) ==> control.wf()),
            forall|i: int| 0 <= i < old(self).players@.len() ==> (#[trigger] old(self).players@[i]).1.body <= old(self).creatures.counter(),
            0 <= old(self).time.0,
        ensures
            final(self).wf(),
            final(self).is_fresh(),
            final(self).charted(),
            final(self).players == old(self).players,
            final(self).time == old(self).time,
            final(self).gamemode == old(self).gamemode,
            final(self).map == old(self).map,
            final(self).creatures.counter() == old(self).creatures.counter() + final(self).creatures.items().len(),
            forall|i: int| 0 <= i < final(self).creatures.ids().len() ==> #[trigger] final(self).creatures.ids()[i] > old(self).creatures.counter(),
    {
        self.creatures.clear();
        self.bullets.clear();
        self.particles.clear();
        self.items.clear();
        self.wave = 0;
        self.to_spawn.clear();
        self.round_state = RoundState::Running;
        let template: MapTemplate = create_map(&self.map, self.gamemode, &mut self.dice);
        let ghost t = template;
        let MapTemplate { size, ground, creatures, spawnpoint, monsterspawn } = template;
        self.size = size;
        self.ground = ground;
        self.spawnpoint = spawnpoint;
        self.monsterspawn = monsterspawn;
        let ghost built = *self;
        let mut i: usize = 0;
        while i < creatures.len()
            invariant
                i <= creatures@.len(),
                creatures@ == t.creatures@,
                t.wf(),
                *self == (World { creatures: self.creatures, dice: self.dice, ..built }),
                self.ground == t.ground,
                self.creatures.wf(),
                self.creatures.items().len() == i,
                self.creatures.counter() == old(self).creatures.counter() + i,
                old(self).creatures.counter() + creatures@.len() < usize::MAX,
                forall|k: int| 0 <= k < i ==> #[trigger] self.creatures.ids()[k] > old(self).creatures.counter(),
                forall|k: int| 0 <= k < i ==> (#[trigger] self.creatures.items()[k]).is_new(t.creatures@[k].1, t.creatures@[k].0),
            decreases creatures@.len() - i,
        {
            let (pos, typ) = creatures[i];
            let creature = Creature::create_creature(typ, pos, &mut self.dice);
            self.creatures.insert(creature);
            i += 1;
        }
        self.drawing = None;
        proof {
            assert(self.built_from(t));
            assert forall|k: int|
                0 <= k < self.creatures.items().len() implies
                (#[trigger] self.creatures.items()[k]).wf() && self.ground.contains(self.creatures.items()[k].pos) by {
                self.creatures.items()[k].lemma_new_wf(t.creatures@[k].1, t.creatures@[k].0);
            }
            self.ground.lemma_cells_fit();
        }
        let cells = self.source_cells(true);
        self.building_distances = distance_map(&self.ground, &cells);
        self.player_distances = Grid::new(self.size, None);
        proof {
            assert(self.built_from(t));
        }
    }

    /// Whether the world comes from `before` by the request of player
    /// `id` to join with `sprite`, answered with `r`: the player is put
    /// behind the others, without plan or body and due the whole field;
    /// a player who has joined already is refused and nothing changes.
    pub open spec fn joined(self, before: World, id: PlayerId, sprite: Sprite, r: Result<(), WorldError>) -> bool {
        &&& self == (World { players: self.players, ..before })
        &&& match r {
            Ok(_) => !before.has_player(id) && self.players@ == before.players@.push(
                (id, Player { plan: None, sprite, body: 0, is_new: true }),
            ),
            Err(e) => e == WorldError::PlayerAlreadyExists && before.has_player(id) && self.players@ == before.players@,
        }
    }

    /// Whether the world comes from `before` by the request of player
    /// `id` to leave, answered with `r`: the player goes, and its creature
    /// with it if it has one; a player who has not joined is refused and
    /// nothing changes.
    pub open spec fn left(self, before: World, id: PlayerId, r: Result<(), WorldError>) -> bool {
        &&& self == (World { players: self.players, creatures: self.creatures, ..before })
        &&& self.creatures.counter() == before.creatures.counter()
        &&& match r {
            Ok(_) => {
                &&& before.player_index(id) matches Some(i)
                &&& self.players@ == before.players@.remove(i)
                &&& if before.creatures.contains(before.players@[i].1.body) {
                    let at = before.creatures.place(before.players@[i].1.body);
                    self.creatures.ids() == before.creatures.ids().remove(at) && self.creatures.items()
                        == before.creatures.items().remove(at)
                } else {
                    self.creatures.ids() == before.creatures.ids() && self.creatures.items() == before.creatures.items()
                }
            },
            Err(e) => e == WorldError::PlayerNotFound && !before.has_player(id) && self.players@ == before.players@
                && self.creatures == before.creatures,
        }
    }

    /// Whether the world comes from `before` by the word of player `id`
    /// that it wants `control`, answered with `r`: the control becomes the
    /// plan of the player, in place of any other; a player who has not
    /// joined is refused and nothing changes.
    pub open spec fn told(self, before: World, id: PlayerId, control: Control, r: Result<(), WorldError>) -> bool {
        &&& self == (World { players: self.players, ..before })
        &&& match r {
            Ok(_) => {
                &&& before.player_index(id) matches Some(i)
                &&& self.players@ == before.players@.update(i, (id, Player { plan: Some(control), ..before.players@[i].1 }))
            },
            Err(e) => e == WorldError::PlayerNotFound && !before.has_player(id) && self.players@ == before.players@,
        }
    }

    /// The place of player `playerid` in the order of joining.
    pub fn find_player(&self, playerid: PlayerId) -> (r: Option<usize>)
        ensures
            match r {
                Some(i) => i < self.players@.len() && self.players@[i as int].0 == playerid,
                None => forall|i: int| 0 <= i < self.players@.len() ==> (#[trigger] self.players@[i]).0 != playerid,
            },
            r is Some <==> self.has_player(playerid),
    {
        let mut i: usize = 0;
        while i < self.players.len()
            invariant
                i <= self.players@.len(),
                forall|k: int| 0 <= k < i ==> (#[trigger] self.players@[k]).0 != playerid,
            decreases self.players@.len() - i,
        {
            if self.players[i].0 == playerid {
                return Some(i);
            }
            i += 1;
        }
        None
    }

    /// Lets a player join: without a body yet, and due the whole field.
    /// A player who has joined already is refused.
    pub fn add_player(&mut self, playerid: &PlayerId, sprite: Sprite) -> (r: Result<(), WorldError>)
        requires
            old(self).wf(),
        ensures
            match r {
                Ok(_) => {
                    &&& !old(self).has_player(*playerid)
                    &&& final(self).players@ == old(self).players@.push(
                        (*playerid, Player { plan: None, sprite, body: 0, is_new: true }),
                    )
                },
                Err(e) => e == WorldError::PlayerAlreadyExists && old(self).has_player(*playerid) && final(self).players@ == old(self).players@,
            },
            *final(self) == (World { players: final(self).players, ..*old(self) }),
            final(self).joined(*old(self), *playerid, sprite, r),
            final(self).wf(),
            final(self).has_player(*playerid),
    {
        match self.find_player(*playerid) {
            Some(_) => Err(WorldError::PlayerAlreadyExists),
            None => {
                self.players.push((*playerid, Player::new(sprite)));
                proof {
                    let n = old(self).players@.len() as int;
                    assert(self.players@[n].0 == *playerid);
                }
                Ok(())
            },
        }
    }

    /// Lets a player leave, and its creature with it. A player who has
    /// not joined is refused.
    pub fn remove_player(&mut self, playerid: &PlayerId) -> (r: Result<(), WorldError>)
        requires
            old(self).wf(),
        ensures
            match r {
                Ok(_) => {
                    &&& old(self).player_index(*playerid) matches Some(i)
                    &&& final(self).players@ == old(self).players@.remove(i)
                    &&& !final(self).creatures.contains(old(self).players@[i].1.body)
                    &&& forall|key: usize|
                        key != old(self).players@[i].1.body ==> (final(self).creatures.contains(key) <==> old(self).creatures.contains(key))
                },
                Err(e) => e == WorldError::PlayerNotFound && !old(self).has_player(*playerid) && final(self).players@ == old(self).players@ && final(self).creatures == old(self).creatures,
            },
            *final(self) == (World { players: final(self).players, creatures: final(self).creatures, ..*old(self) }),
            final(self).creatures.counter() == old(self).creatures.counter(),
            final(self).left(*old(self), *playerid, r),
            final(self).wf(),
            !final(self).has_player(*playerid),
            old(self).charted() && (old(self).player_index(*playerid) matches Some(i) ==> !(old(self).creatures.contains(
                old(self).players@[i].1.body,
            ) && is_stronghold(old(self).creatures.value(old(self).players@[i].1.body)))) ==> final(self).charted(),
    {
        match self.find_player(*playerid) {
            Some(i) => {
                proof {
                    let j = old(self).player_index(*playerid).unwrap();
                    assert(old(self).players@[j].0 == *playerid);
                    assert(j == i);
                }
                let (_, player) = self.players.remove(i);
                let ghost place = old(self).creatures.place(player.body);
                let taken = self.creatures.remove(&player.body);
                proof {
                    assert forall|key: usize|
                        key != player.body implies
                        (self.creatures.contains(key) <==> old(self).creatures.contains(key)) by {
                        if old(self).creatures.contains(key) {
                            let j = old(self).creatures.ids().index_of(key);
                            assert(old(self).creatures.ids()[j] == key);
                            if taken is Some {
                                if j < place {
                                    assert(self.creatures.ids()[j] == key);
                                } else {
                                    assert(self.creatures.ids()[j - 1] == key);
                                }
                            }
                        }
                        if self.creatures.contains(key) {
                            let j = self.creatures.ids().index_of(key);
                            assert(self.creatures.ids()[j] == key);
                            if taken is Some {
                                if j < place {
                                    assert(old(self).creatures.ids()[j] == key);
                                } else {
                                    assert(old(self).creatures.ids()[j + 1] == key);
                                }
                            }
                        }
                    }
                    if taken is Some && !is_stronghold(old(self).creatures.value(player.body)) {
                        lemma_sources_remove(old(self).creatures.items(), place);
                    }
                    if self.has_player(*playerid) {
                        let j = self.player_index(*playerid).unwrap();
                        assert(self.players@[j].0 == *playerid);
                        if j < i {
                            assert(old(self).players@[j].0 == *playerid);
                        } else {
                            assert(old(self).players@[j + 1].0 == *playerid);
                        }
                    }
                    assert forall|k: int|
                        0 <= k < self.creatures.items().len() implies
                        (#[trigger] self.creatures.items()[k]).wf() && self.ground.contains(self.creatures.items()[k].pos) by {
                        if taken is Some {
                            if k < place {
                                assert(self.creatures.items()[k] == old(self).creatures.items()[k]);
                            } else {
                                assert(self.creatures.items()[k] == old(self).creatures.items()[k + 1]);
                            }
                        }
                    }
                }
                Ok(())
            },
            None => Err(WorldError::PlayerNotFound),
        }
    }

    /// Notes what a player wants its body to do next; what it wanted
    /// before is forgotten. A player who has not joined is refused.
    pub fn control_player(&mut self, playerid: PlayerId, control: Control) -> (r: Result<(), WorldError>)
        requires
            old(self).wf(),
            control.wf(),
        ensures
            match r {
                Ok(_) => {
                    &&& old(self).player_index(playerid) matches Some(i)
                    &&& final(self).players@ == old(self).players@.update(
                        i,
                        (playerid, Player { plan: Some(control), ..old(self).players@[i].1 }),
                    )
                },
                Err(e) => e == WorldError::PlayerNotFound && !old(self).has_player(playerid) && final(self).players@ == old(self).players@,
            },
            *final(self) == (World { players: final(self).players, ..*old(self) }),
            final(self).told(*old(self), playerid, control, r),
            final(self).wf(),
    {
        match self.find_player(playerid) {
            Some(i) => {
                proof {
                    let j = old(self).player_index(playerid).unwrap();
                    assert(old(self).players@[j].0 == playerid);
                    assert(j == i);
                }
                self.players[i].1.plan = Some(control);
                Ok(())
            },
            None => Err(WorldError::PlayerNotFound),
        }
    }

    /// Carries out what a connection asks for, see `joined`, `left` and `told`.
    pub fn perform(&mut self, action: Action) -> (r: Result<(), WorldError>)
        requires
            old(self).wf(),
            action matches Action::Input(_, control) ==> control.wf(),
        ensures
            final(self).wf(),
            final(self).creatures.counter() == old(self).creatures.counter(),
            match action {
                Action::Join(id, sprite) => final(self).joined(*old(self), id, sprite, r) && final(self).has_player(id),
                Action::Leave(id) => final(self).left(*old(self), id, r) && !final(self).has_player(id),
                Action::Input(id, control) => final(self).told(*old(self), id, control, r),
            },
    {
        match action {
            Action::Join(id, sprite) => self.add_player(&id, sprite),
            Action::Leave(id) => self.remove_player(&id),
            Action::Input(id, control) => self.control_player(id, control),
        }
    }

    pub fn nplayers(&self) -> (n: usize)
        ensures
            n == self.players@.len(),
    {
        self.players.len()
    }
}

} // verus!
