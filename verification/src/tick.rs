use vstd::prelude::*;
use crate::ballistics::{descends, flown, Impact, only_hurt, spec_impact};
use crate::controls::Control;
use crate::creature::{Alignment, Creature, Mind};
use crate::distance::is_distance_field;
use crate::gamemode::GameMode;
use crate::item::Item;
use crate::player::Player;
use crate::pos::{Direction, Pos};
use crate::round::{alive, alive_ids, building_among, fallen};
use crate::sprite::Sprite;
use crate::step::{acted, goal, shot_among};
use crate::timestamp::Timestamp;
use crate::posmap::PosMap;
use crate::weapon::{Bullet, Luck};
use crate::world::{is_stronghold, lemma_sources_agree, lemma_sources_grow, RoundState, sources, World};

verus! {

/// What is written across the field while a lost round ends.
pub open spec fn game_over_text() -> Seq<char> {
    seq!['G', 'A', 'M', 'E', '_', 'O', 'V', 'E', 'R', '!']
}

/// Whether a building that is no monster's is among the creatures.
pub fn has_building(creatures: &Vec<Creature>) -> (b: bool)
    ensures
        b == building_among(creatures@),
{
    let mut i: usize = 0;
    while i < creatures.len()
        invariant
            i <= creatures@.len(),
            forall|k: int| 0 <= k < i ==> !is_stronghold(#[trigger] creatures@[k]),
        decreases creatures@.len() - i,
    {
        if creatures[i].is_building && creatures[i].alignment != Alignment::Monsters {
            return true;
        }
        i += 1;
    }
    false
}

impl World {
    /// Whether the letters of the text stand as particles in a row from `origin` on.
    pub open spec fn announces(self, origin: Pos) -> bool {
        forall|i: int|
            0 <= i < 10 ==> self.particles.lookup(Pos { x: (origin.x + i) as i64, y: origin.y }) == Some(
                Sprite::Letter(#[trigger] game_over_text()[i]),
            )
    }

    /// Writes the text of a lost round into the particles, in a row
    /// that begins on `origin`.
    pub fn write_game_over(&mut self, origin: Pos)
        requires
            old(self).wf(),
            old(self).ground.contains(origin),
        ensures
            final(self).wf(),
            *final(self) == (World { particles: final(self).particles, ..*old(self) }),
            final(self).announces(origin),
            forall|p: Pos|
                !(p.y == origin.y && origin.x <= p.x < origin.x + 10) ==> #[trigger] final(self).particles.lookup(p) == old(self).particles.lookup(p),
    {
        let mut letters: Vec<char> = Vec::new();
        letters.push('G');
        letters.push('A');
        letters.push('M');
        letters.push('E');
        letters.push('_');
        letters.push('O');
        letters.push('V');
        letters.push('E');
        letters.push('R');
        letters.push('!');
        assert(letters@ =~= game_over_text());
        let mut i: usize = 0;
        while i < 10
            invariant
                i <= 10,
                letters@ == game_over_text(),
                old(self).wf(),
                0 <= origin.x <= old(self).size.x,
                *self == (World { particles: self.particles, ..*old(self) }),
                self.particles.wf(),
                forall|k: int|
                    0 <= k < i ==> self.particles.lookup(Pos { x: (origin.x + k) as i64, y: origin.y }) == Some(
                        Sprite::Letter(#[trigger] game_over_text()[k]),
                    ),
                forall|p: Pos|
                    !(p.y == origin.y && origin.x <= p.x < origin.x + i) ==> #[trigger] self.particles.lookup(p) == old(self).particles.lookup(p),
            decreases 10 - i,
        {
            let c = letters[i];
            let at = Pos::new(origin.x + i as i64, origin.y);
            let ghost before = self.particles;
            match Sprite::letter_sprite(c) {
                Some(sprite) => {
                    self.particles.insert(at, sprite);
                },
                None => {},
            }
            proof {
                assert(crate::text::spec_ascii_graphic(c));
                assert forall|k: int|
                    0 <= k < i + 1 implies
                    self.particles.lookup(Pos { x: (origin.x + k) as i64, y: origin.y }) == Some(Sprite::Letter(#[trigger] game_over_text()[k])) by {
                    if k < i {
                        let q = Pos { x: (origin.x + k) as i64, y: origin.y };
                        assert(q != at);
                        assert(self.particles.lookup(q) == before.lookup(q));
                    }
                }
                assert forall|p: Pos|
                    !(p.y == origin.y && origin.x <= p.x < origin.x + i + 1) implies
                    #[trigger] self.particles.lookup(p) == old(self).particles.lookup(p) by {
                    assert(p != at);
                    assert(self.particles.lookup(p) == before.lookup(p));
                }
            }
            i += 1;
        }
    }

    /// Writes the text of a lost round into the particles, in a row
    /// that begins on a random cell of the ground, far enough from the
    /// right edge for the text where the ground is wide enough.
    pub fn announce_game_over(&mut self) -> (origin: Pos)
        requires
            old(self).wf(),
        ensures
            final(self).wf(),
            *final(self) == (World { particles: final(self).particles, dice: final(self).dice, ..*old(self) }),
            final(self).ground.contains(origin),
            origin.x < old(self).size.x - 10 || origin.x == 0,
            final(self).announces(origin),
            forall|p: Pos|
                !(p.y == origin.y && origin.x <= p.x < origin.x + 10) ==> #[trigger] final(self).particles.lookup(p) == old(self).particles.lookup(p),
    {
        let width = if self.size.x - 10 > 1 {
            self.size.x - 10
        } else {
            1
        };
        let x = self.dice.roll(0, width - 1);
        let y = self.dice.roll(0, self.size.y - 1);
        let origin = Pos::new(x, y);
        self.write_game_over(origin);
        origin
    }

    /// Whether the particles are those of `before` with the text of a
    /// lost round written over them, in a row that begins on `origin`: a
    /// cell of the ground, far enough from the right edge for the text
    /// where the ground is wide enough.
    pub open spec fn text_written(self, before: World, origin: Pos) -> bool {
        &&& self.ground.contains(origin)
        &&& (origin.x < before.size.x - 10 || origin.x == 0)
        &&& self.announces(origin)
        &&& forall|p: Pos|
            !(p.y == origin.y && origin.x <= p.x < origin.x + 10) ==> #[trigger] self.particles.lookup(p) == before.particles.lookup(p)
    }

    /// One tick of the time after a lost round: the text is written, and
    /// the time that is left counted down. At its end a new round
    /// begins, and every player is due the whole field.
    pub fn update_game_over(&mut self, n: i64)
        requires
            old(self).wf(),
            old(self).has_room(),
            old(self).round_state == RoundState::GameOver(n),
        ensures
            final(self).wf(),
            final(self).time == old(self).time,
            final(self).gamemode == old(self).gamemode,
            final(self).map == old(self).map,
            old(self).charted() ==> final(self).charted(),
            n > 1 ==> *final(self) == (World {
                particles: final(self).particles,
                dice: final(self).dice,
                round_state: RoundState::GameOver((n - 1) as i64),
                ..*old(self)
            }) && exists|origin: Pos| #[trigger] final(self).text_written(*old(self), origin),
            n <= 1 ==> final(self).is_fresh(),
            n <= 1 ==> final(self).players@.len() == old(self).players@.len() && forall|k: int|
                0 <= k < old(self).players@.len() ==> #[trigger] final(self).players@[k] == (
                    old(self).players@[k].0,
                    Player { is_new: true, ..old(self).players@[k].1 },
                ),
            n <= 1 ==> forall|k: int| 0 <= k < final(self).creatures.ids().len() ==> #[trigger] final(self).creatures.ids()[k] > old(self).creatures.counter(),
    {
        let origin = self.announce_game_over();
        if n > 1 {
            self.round_state = RoundState::GameOver(n - 1);
            assert(self.text_written(*old(self), origin));
        } else {
            self.reset();
            let ghost fresh = *self;
            let count = self.players.len();
            let mut k: usize = 0;
            while k < count
                invariant
                    k <= count,
                    count == old(self).players@.len(),
                    fresh.wf(),
                    fresh.is_fresh(),
                    fresh.players == old(self).players,
                    *self == (World { players: self.players, ..fresh }),
                    self.players@.len() == count,
                    forall|j: int| k <= j < count ==> #[trigger] self.players@[j] == old(self).players@[j],
                    forall|j: int|
                        0 <= j < k ==> #[trigger] self.players@[j] == (
                            old(self).players@[j].0,
                            Player { is_new: true, ..old(self).players@[j].1 },
                        ),
                decreases count - k,
            {
                self.players[k].1.is_new = true;
                k += 1;
            }
            proof {
                assert(self.is_fresh()) by {
                    let t = choose|t: crate::mapgen::MapTemplate|
                        t.wf() && #[trigger] fresh.built_from(t) && (match fresh.map {
                            crate::mapgen::MapType::Builtin(crate::mapgen::BuiltinMap::Square) => crate::mapgen::is_square_map(t, fresh.gamemode),
                            crate::mapgen::MapType::Custom(template) => t.same_as(template),
                        });
                    assert(self.built_from(t));
                }
                assert forall|i: int, j: int|
                    0 <= i < j < self.players@.len() implies
                    (#[trigger] self.players@[i]).0 != (#[trigger] self.players@[j]).0 by {
                    assert(fresh.players@[i].0 != fresh.players@[j].0);
                }
                assert forall|i: int|
                    0 <= i < self.players@.len() implies
                    ((#[trigger] self.players@[i]).1.plan matches Some(control) ==> control.wf()) by {
                    assert(fresh.players@[i].1.plan matches Some(control) ==> control.wf());
                }
                assert forall|i: int|
                    0 <= i < self.players@.len() implies
                    (#[trigger] self.players@[i]).1.body <= self.creatures.counter() by {
                    assert(fresh.players@[i].1.body <= fresh.creatures.counter());
                }
            }
        }
    }

    /// What a tick of a round that is not lost yet does to the world.
    /// The time goes on by one. Every creature has health; it was in
    /// the world before with health and is of the kind that it was, see
    /// `stayed`, or it is the new body of a player or the monster that has
    /// left those that wait, see `entered`. A player keeps its body unless
    /// that has left the world. Where no monster had health and none
    /// waited, in a mode with waves, the next wave begins. The round is
    /// lost where `spec_round_over` says so of the world after the tick.
    pub open spec fn ticked(self, before: World) -> bool {
        &&& self.time.0 == before.time.0 + 1
        &&& self == (World {
            time: self.time,
            creatures: self.creatures,
            players: self.players,
            bullets: self.bullets,
            particles: self.particles,
            items: self.items,
            wave: self.wave,
            round_state: self.round_state,
            to_spawn: self.to_spawn,
            dice: self.dice,
            building_distances: self.building_distances,
            player_distances: self.player_distances,
            ..before
        })
        &&& self.bullets_calm()
        &&& (World::cells_distinct(before.creatures.items()) ==> self.veterans_distinct(before.creatures.counter()))
        &&& (before.charted() ==> self.charted())
        &&& self.creatures.counter() >= before.creatures.counter()
        &&& (forall|k: int| 0 <= k < self.creatures.items().len() ==> (#[trigger] self.creatures.items()[k]).health.0 > 0)
        &&& (forall|k: int|
            0 <= k < self.creatures.items().len() ==> if (#[trigger] self.creatures.ids()[k]) <= before.creatures.counter() {
                self.stayed(before, k)
            } else {
                self.entered(before, k)
            })
        &&& self.players@.len() == before.players@.len()
        &&& forall|k: int|
            0 <= k < before.players@.len() ==> {
                let was = before.players@[k];
                let now = #[trigger] self.players@[k];
                &&& now.0 == was.0
                &&& now.1 == (Player { plan: None, body: now.1.body, ..was.1 })
                &&& self.creatures.contains(now.1.body)
                &&& (now.1.body != was.1.body ==> !self.creatures.contains(was.1.body))
                &&& (now.1.body != was.1.body ==> now.1.body > before.creatures.counter() && self.creatures.value(
                    now.1.body,
                ).is_new_player(was.0, was.1.sprite, before.spawnpoint, before.gamemode == GameMode::PvP))
            }
        &&& (self.to_spawn@.len() < before.to_spawn@.len() ==> self.creatures.items().len() > 0 && self.creatures.ids().last()
            > before.creatures.counter() && exists|i: int|
            0 <= i < before.monsterspawn@.len() && self.creatures.items().last().is_new(
                before.to_spawn@[0],
                #[trigger] before.monsterspawn@[i],
            ))
        &&& ((self.wave == before.wave + 1) <==> (before.gamemode != GameMode::PvP && before.to_spawn@.len() == 0
            && !self.spec_has_monsters()))
        &&& (before.gamemode != GameMode::PvP && before.to_spawn@.len() == 0 && !before.monster_lives() ==> self.wave
            == before.wave + 1)
        &&& (self.wave == before.wave + 1 ==> self.to_spawn@ == World::wave_of(before.gamemode, before.wave + 1))
        &&& (self.wave != before.wave + 1 ==> self.wave == before.wave && self.to_spawn@ == (if !(before.round_state is Paused)
            && before.time.0 % 5 == 0 && before.to_spawn@.len() > 0 {
            before.to_spawn@.drop_first()
        } else {
            before.to_spawn@
        }))
        &&& self.round_state == (if self.spec_round_over() {
            RoundState::GameOver(50)
        } else if self.wave == before.wave + 1 {
            RoundState::Paused(24)
        } else {
            before.round_state.spec_unpause()
        })
    }

    /// Whether the world can come from `before` by the two parts of a
    /// tick, one after the other: the fighting, see `fought`, and what
    /// comes after it, see `cleared`.
    pub open spec fn went_through(self, before: World) -> bool {
        exists|mid: World| #[trigger] mid.fought(before) && mid.wf() && self.cleared(mid)
    }

    /// Whether `after` is what the creature at place `k` can be after
    /// the fighting: what it can be after its own tick, see `tick_fits`,
    /// with some of its health taken by bullets.
    pub open spec fn struck(self, k: int, after: Creature) -> bool {
        exists|mid: Creature| #[trigger]
            self.tick_fits(k, mid) && after == (Creature { health: after.health, ..mid }) && after.health.0
                <= mid.health.0
    }

    /// Whether `b` can be a bullet after the fighting: a bullet that
    /// was there or that one of the creatures has fired, a tick later.
    pub open spec fn lands(self, b: Bullet) -> bool {
        exists|source: Bullet|
            (self.bullets@.contains(source) || shot_among(self.creatures.items(), source)) && #[trigger] flown(
                source,
                b,
            )
    }

    /// Whether `particle` is the sprite of a bullet that was there or
    /// that one of the creatures has fired.
    pub open spec fn trailed(self, particle: Option<Sprite>) -> bool {
        exists|source: Bullet|
            (self.bullets@.contains(source) || shot_among(self.creatures.items(), source)) && particle == Some(
                #[trigger] source.spec_sprite(),
            )
    }

    /// Whether the world comes from `before` by the fighting part of a
    /// tick with `mid` as the world between the ticks of the creatures
    /// and the flight of the bullets: `mid` is `before` without its
    /// particles after the ticks of the creatures with their plans, see
    /// `marched_from`, and the world is `mid` after the flight of the
    /// bullets with their luck, which leaves their trails as the
    /// particles, see `volleyed`.
    pub open spec fn battled(
        self,
        before: World,
        mid: World,
        occupancy: PosMap<usize>,
        plans: Seq<Option<Control>>,
        lucks: Seq<Seq<Luck>>,
    ) -> bool {
        &&& mid.wf()
        &&& occupancy.wf()
        &&& mid.particles.keys().len() == 0
        &&& mid == (World {
            creatures: mid.creatures,
            bullets: mid.bullets,
            particles: mid.particles,
            items: mid.items,
            dice: mid.dice,
            player_distances: mid.player_distances,
            ..before
        })
        &&& mid.marched_from(World { particles: mid.particles, ..before }, occupancy, plans)
        &&& self == (World {
            creatures: self.creatures,
            bullets: self.bullets,
            particles: self.particles,
            dice: self.dice,
            ..mid
        })
        &&& self.volleyed(mid, occupancy, lucks)
    }

    /// What the fighting part of a tick does to the world. The
    /// creatures stay the same ones, each as `struck` says; no bullet is
    /// left beyond its range or on a tile that stops bullets, and each one
    /// left is as `lands` says; the particles are sprites of bullets;
    /// items can only go; the distances to the players are those of the
    /// players as they stood before. All of this follows from the last
    /// clause, which says in full what comes of the creatures, the
    /// items, the bullets and the particles, see `battled`.
    pub open spec fn fought(self, before: World) -> bool {
        &&& self == (World {
            creatures: self.creatures,
            bullets: self.bullets,
            particles: self.particles,
            items: self.items,
            dice: self.dice,
            player_distances: self.player_distances,
            ..before
        })
        &&& self.creatures.ids() == before.creatures.ids()
        &&& self.creatures.counter() == before.creatures.counter()
        &&& self.creatures.items().len() == before.creatures.items().len()
        &&& self.bullets_calm()
        &&& (World::cells_distinct(before.creatures.items()) ==> World::cells_distinct(self.creatures.items()))
        &&& (forall|k: int|
            0 <= k < before.creatures.items().len() ==> World::same_kind(
                #[trigger] self.creatures.items()[k],
                before.creatures.items()[k],
            ))
        &&& (forall|k: int|
            0 <= k < before.creatures.items().len() && before.creatures.items()[k].is_building
                ==> (#[trigger] self.creatures.items()[k]).pos == before.creatures.items()[k].pos)
        &&& (forall|k: int|
            0 <= k < before.creatures.items().len() ==> (World {
                player_distances: self.player_distances,
                ..before
            }).struck(k, #[trigger] self.creatures.items()[k]))
        &&& (forall|k: int| 0 <= k < self.bullets@.len() ==> before.lands(#[trigger] self.bullets@[k]))
        &&& (forall|p: Pos| #[trigger] self.particles.lookup(p) is None || before.trailed(self.particles.lookup(p)))
        &&& (forall|p: Pos| #[trigger] self.items.lookup(p) == before.items.lookup(p) || self.items.lookup(p) is None)
        &&& (before.charted() ==> self.charted())
        &&& is_distance_field(self.ground, sources(before.creatures.items(), false), self.player_distances)
        &&& exists|mid: World, occupancy: PosMap<usize>, plans: Seq<Option<Control>>, lucks: Seq<Seq<Luck>>| #[trigger]
            self.battled(before, mid, occupancy, plans, lucks)
    }

    /// What a creature can be after its tick does not depend on the
    /// particles, the bullets, the items or the dice.
    pub proof fn lemma_tick_fits_elsewhere(self, other: World, k: int, after: Creature)
        requires
            self.tick_fits(k, after),
            other == (World {
                particles: other.particles,
                bullets: other.bullets,
                items: other.items,
                dice: other.dice,
                ..self
            }),
        ensures
            other.tick_fits(k, after),
    {
        let c = self.creatures.items()[k];
        let (plan, free, item) = choose|plan: Option<Control>, free: bool, item: Option<Item>|
            (if c.cooldown.0 == 0 {
                self.plan_fits(k, plan)
            } else {
                plan is None
            }) && #[trigger] acted(c, plan, self.ground.lookup(c.pos), self.ground.lookup(goal(c, plan)), free, item, self.is_paused()) == after;
        assert(other.plan_fits(k, plan) == self.plan_fits(k, plan));
        assert(acted(c, plan, other.ground.lookup(c.pos), other.ground.lookup(goal(c, plan)), free, item, other.is_paused()) == after);
    }

    /// A creature without health stays without through the fighting.
    pub proof fn lemma_dead_stay_dead(self, before: World, k: int)
        requires
            self.fought(before),
            0 <= k < before.creatures.items().len(),
            before.creatures.items()[k].health.0 <= 0,
        ensures
            self.creatures.items()[k].health.0 <= 0,
    {
        let shown = World { player_distances: self.player_distances, ..before };
        let after = self.creatures.items()[k];
        assert(shown.struck(k, after));
        let mid = choose|mid: Creature| #[trigger]
            shown.tick_fits(k, mid) && after == (Creature { health: after.health, ..mid }) && after.health.0 <= mid.health.0;
        let c = shown.creatures.items()[k];
        let (plan, free, item) = choose|plan: Option<Control>, free: bool, item: Option<Item>|
            (if c.cooldown.0 == 0 {
                shown.plan_fits(k, plan)
            } else {
                plan is None
            }) && #[trigger] acted(c, plan, shown.ground.lookup(c.pos), shown.ground.lookup(goal(c, plan)), free, item, shown.is_paused()) == mid;
        assert(mid == c);
    }

    /// The creatures after a tick are those that were there before it
    /// and have lived on, and those that have entered. `mid` is the world
    /// between the two parts of the tick.
    pub proof fn lemma_creatures_after(self, mid: World, before: World)
        requires
            before.wf(),
            mid.wf(),
            self.wf(),
            mid.fought(before),
            self.cleared(mid),
        ensures
            forall|k: int|
                0 <= k < self.creatures.items().len() ==> if (#[trigger] self.creatures.ids()[k]) <= before.creatures.counter() {
                    self.stayed(before, k)
                } else {
                    self.entered(before, k)
                },
            mid.monster_lives() ==> before.monster_lives(),
            forall|j: int|
                0 <= j < before.players@.len() && (#[trigger] self.players@[j]).1.body != before.players@[j].1.body
                    ==> !self.creatures.contains(before.players@[j].1.body),
    {
        let n = alive(mid.creatures.items()).len() as int;
        assert forall|j: int|
            0 <= j < before.players@.len() && (#[trigger] self.players@[j]).1.body != before.players@[j].1.body implies
            !self.creatures.contains(before.players@[j].1.body) by {
            let key = before.players@[j].1.body;
            assert(mid.players@[j] == before.players@[j]);
            assert(!mid.has_living(key));
            assert(key <= before.creatures.counter());
            if self.creatures.contains(key) {
                let k = self.creatures.ids().index_of(key);
                assert(self.creatures.ids()[k] == key);
                if k < n {
                    crate::round::lemma_alive_ids_len(mid.creatures.ids(), mid.creatures.items());
                    let m = crate::round::lemma_alive_place(mid.creatures.ids(), mid.creatures.items(), k);
                    assert(self.creatures.ids().subrange(0, n)[k] == self.creatures.ids()[k]);
                    mid.creatures.lemma_place(m);
                }
            }
        }
        crate::round::lemma_alive_ids_len(mid.creatures.ids(), mid.creatures.items());
        assert forall|k: int| 0 <= k < self.creatures.items().len() implies if (#[trigger] self.creatures.ids()[k]) <= before.creatures.counter() {
            self.stayed(before, k)
        } else {
            self.entered(before, k)
        } by {
            if k < n {
                let m = crate::round::lemma_alive_place(mid.creatures.ids(), mid.creatures.items(), k);
                assert(self.creatures.items().subrange(0, n)[k] == self.creatures.items()[k]);
                assert(self.creatures.ids().subrange(0, n)[k] == self.creatures.ids()[k]);
                before.creatures.lemma_place(m);
                if before.creatures.items()[m].health.0 <= 0 {
                    mid.lemma_dead_stay_dead(before, m);
                }
                assert(World::same_kind(mid.creatures.items()[m], before.creatures.items()[m]));
                assert(self.stayed(before, k));
            } else {
                assert(self.creatures.ids()[k] > mid.creatures.counter());
                assert(self.entered(mid, k));
            }
        }
        if mid.monster_lives() {
            let m = choose|m: int|
                0 <= m < mid.creatures.items().len() && (#[trigger] mid.creatures.items()[m]).alignment == Alignment::Monsters
                    && mid.creatures.items()[m].health.0 > 0;
            assert(World::same_kind(mid.creatures.items()[m], before.creatures.items()[m]));
            if before.creatures.items()[m].health.0 <= 0 {
                mid.lemma_dead_stay_dead(before, m);
            }
            assert(before.creatures.items()[m].alignment == Alignment::Monsters && before.creatures.items()[m].health.0 > 0);
        }
    }

    /// A shot costs the cooldown of the weapon. After the fighting a
    /// body that had health and no cooldown, whose player asked for a shot
    /// and which had its weapon at hand, waits the cooldown of that weapon
    /// and faces where the shot was to go.
    pub proof fn lemma_shot_in_battle(self, before: World, k: int, j: int, turn: Option<Direction>)
        requires
            before.wf(),
            self.fought(before),
            0 <= k < before.creatures.items().len(),
            0 <= j < before.players@.len(),
            before.creatures.items()[k].mind == Mind::Player(before.players@[j].0),
            before.players@[j].1.plan == Some(Control::Shoot(turn)),
            before.creatures.items()[k].health.0 > 0,
            before.creatures.items()[k].cooldown.0 == 0,
            before.creatures.items()[k].spec_weapon() is Some,
        ensures
            self.creatures.items()[k].cooldown == before.creatures.items()[k].spec_weapon().unwrap().cooldown,
            self.creatures.items()[k].dir == (match turn {
                Some(dir) => dir,
                None => before.creatures.items()[k].dir,
            }),
    {
        let shown = World { player_distances: self.player_distances, ..before };
        let after = self.creatures.items()[k];
        assert(shown.struck(k, after));
        let mid = choose|mid: Creature| #[trigger]
            shown.tick_fits(k, mid) && after == (Creature { health: after.health, ..mid }) && after.health.0 <= mid.health.0;
        let c = shown.creatures.items()[k];
        let (plan, free, item) = choose|plan: Option<Control>, free: bool, item: Option<Item>|
            (if c.cooldown.0 == 0 {
                shown.plan_fits(k, plan)
            } else {
                plan is None
            }) && #[trigger] acted(c, plan, shown.ground.lookup(c.pos), shown.ground.lookup(goal(c, plan)), free, item, shown.is_paused()) == mid;
        let id = before.players@[j].0;
        assert(shown.players@[j].0 == id);
        assert(shown.player_index(id) is Some);
        let w = shown.player_index(id).unwrap();
        assert(w == j) by {
            if w < j {
                assert(before.players@[w].0 != before.players@[j].0);
            } else if j < w {
                assert(before.players@[j].0 != before.players@[w].0);
            }
        }
        assert(plan == Some(Control::Shoot(turn)));
    }

    /// A creature that is in the world before and after the part of a
    /// tick that follows the fighting is not changed by it.
    pub proof fn lemma_survivor(self, before: World, k: int)
        requires
            before.wf(),
            self.wf(),
            self.cleared(before),
            0 <= k < before.creatures.items().len(),
            self.creatures.contains(before.creatures.ids()[k]),
        ensures
            self.creatures.value(before.creatures.ids()[k]) == before.creatures.items()[k],
    {
        let key = before.creatures.ids()[k];
        let n = alive(before.creatures.items()).len() as int;
        crate::round::lemma_alive_ids_len(before.creatures.ids(), before.creatures.items());
        let i = self.creatures.place(key);
        assert(self.creatures.ids()[i] == key);
        self.creatures.lemma_place(i);
        assert(i < n);
        let m = crate::round::lemma_alive_place(before.creatures.ids(), before.creatures.items(), i);
        assert(self.creatures.ids().subrange(0, n)[i] == self.creatures.ids()[i]);
        assert(self.creatures.items().subrange(0, n)[i] == self.creatures.items()[i]);
        before.creatures.lemma_place(m);
        before.creatures.lemma_place(k);
    }

    /// The fighting part of a tick: the particles of the last tick go,
    /// the creatures act, and the bullets fly. See `fought`.
    pub fn battle(&mut self)
        requires
            old(self).wf(),
        ensures
            final(self).wf(),
            final(self).fought(*old(self)),
    {
        self.particles.clear();
        let ghost emptied = *self;
        let occupancy = self.update_creatures();
        let ghost acted = *self;
        self.update_bullets(&occupancy);
        proof {
            let plans = choose|plans: Seq<Option<Control>>| #[trigger] acted.marched_from(emptied, occupancy, plans);
            let lucks = choose|lucks: Seq<Seq<Luck>>| #[trigger] self.volleyed(acted, occupancy, lucks);
            assert(emptied == (World { particles: acted.particles, ..*old(self) }));
            assert(self.battled(*old(self), acted, occupancy, plans, lucks));
        }
        proof {
            assert(self.bullets_calm()) by {
                assert forall|k: int|
                    0 <= k < self.bullets@.len() implies
                    !(#[trigger] self.bullets@[k]).spec_out_of_range() && !(self.ground.lookup(self.bullets@[k].pos) is Some && self.ground.lookup(self.bullets@[k].pos).unwrap().blocks_bullets()) by {
                    assert(spec_impact(self.bullets@[k], self.creatures, self.ground, occupancy) == Impact::Nothing);
                }
            }
            assert forall|k: int|
                0 <= k < old(self).creatures.items().len() implies
                World::same_kind(#[trigger] self.creatures.items()[k], old(self).creatures.items()[k]) by {
                assert(World::same_kind(acted.creatures.items()[k], old(self).creatures.items()[k]));
                assert(self.creatures.items()[k] == (Creature { health: self.creatures.items()[k].health, ..acted.creatures.items()[k] }));
            }
            let planned = World { player_distances: acted.player_distances, ..emptied };
            let shown = World { player_distances: self.player_distances, ..*old(self) };
            assert forall|k: int|
                0 <= k < old(self).creatures.items().len() implies
                shown.struck(k, #[trigger] self.creatures.items()[k]) by {
                let mid = acted.creatures.items()[k];
                assert(planned.tick_fits(k, mid));
                planned.lemma_tick_fits_elsewhere(shown, k, mid);
                assert(self.creatures.items()[k] == (Creature { health: self.creatures.items()[k].health, ..mid }));
                assert(self.creatures.items()[k].health.0 <= mid.health.0);
            }
            assert forall|k: int|
                0 <= k < old(self).creatures.items().len() && old(self).creatures.items()[k].is_building implies
                (#[trigger] self.creatures.items()[k]).pos == old(self).creatures.items()[k].pos by {
                assert(old(self).creatures.items()[k].wf());
                assert(planned.tick_fits(k, acted.creatures.items()[k]));
                planned.lemma_building_stays(k, acted.creatures.items()[k]);
                assert(self.creatures.items()[k] == (Creature { health: self.creatures.items()[k].health, ..acted.creatures.items()[k] }));
            }
            assert forall|k: int| 0 <= k < self.bullets@.len() implies old(self).lands(#[trigger] self.bullets@[k]) by {
                let b = self.bullets@[k];
                assert(descends(acted.bullets@, b));
                let j = choose|j: int| 0 <= j < acted.bullets@.len() && flown(#[trigger] acted.bullets@[j], b);
                let source = acted.bullets@[j];
                if j < old(self).bullets@.len() {
                    assert(acted.bullets@.subrange(0, old(self).bullets@.len() as int)[j] == source);
                    assert(old(self).bullets@[j] == source);
                } else {
                    assert(shot_among(old(self).creatures.items(), source));
                }
                assert(flown(source, b));
            }
            assert forall|p: Pos| #[trigger] self.particles.lookup(p) is None || old(self).trailed(self.particles.lookup(p)) by {
                assert(emptied.particles.lookup(p) is None);
                assert(acted.particles.lookup(p) is None);
                if self.particles.lookup(p) is Some {
                    assert(crate::ballistics::trails(acted.bullets@, self.particles.lookup(p)));
                    let j = choose|j: int| 0 <= j < acted.bullets@.len() && self.particles.lookup(p) == Some((#[trigger] acted.bullets@[j]).spec_sprite());
                    let source = acted.bullets@[j];
                    if j < old(self).bullets@.len() {
                        assert(acted.bullets@.subrange(0, old(self).bullets@.len() as int)[j] == source);
                        assert(old(self).bullets@[j] == source);
                    } else {
                        assert(shot_among(old(self).creatures.items(), source));
                    }
                    assert(self.particles.lookup(p) == Some(source.spec_sprite()));
                }
            }
            if old(self).charted() {
                lemma_sources_agree(old(self).creatures.items(), self.creatures.items());
            }
            if World::cells_distinct(old(self).creatures.items()) {
                assert(World::cells_distinct(acted.creatures.items()));
                assert forall|a: int, b: int|
                    0 <= a < b < self.creatures.items().len() implies
                    (#[trigger] self.creatures.items()[a]).pos != (#[trigger] self.creatures.items()[b]).pos by {
                    assert(acted.creatures.items()[a].pos != acted.creatures.items()[b].pos);
                    assert(self.creatures.items()[a] == (Creature { health: self.creatures.items()[a].health, ..acted.creatures.items()[a] }));
                    assert(self.creatures.items()[b] == (Creature { health: self.creatures.items()[b].health, ..acted.creatures.items()[b] }));
                }
            }
        }
    }

    /// What the part of a tick after the fighting does to the world.
    /// The creatures with health stay, in their order, and behind them
    /// come those that enter: a new body for each player whose body has no
    /// health or is not there, and the monster that leaves those that
    /// wait, see `entered`. The dead drop items by their rolls, see
    /// `dropped`. The next wave begins exactly where the mode has waves,
    /// no monster has health and none waits.
    pub open spec fn cleared(self, before: World) -> bool {
        &&& self.time.0 == before.time.0 + 1
        &&& self == (World {
            time: self.time,
            creatures: self.creatures,
            players: self.players,
            items: self.items,
            wave: self.wave,
            round_state: self.round_state,
            to_spawn: self.to_spawn,
            dice: self.dice,
            building_distances: self.building_distances,
            ..before
        })
        &&& (World::cells_distinct(before.creatures.items()) ==> self.veterans_distinct(before.creatures.counter()))
        &&& (before.charted() ==> self.charted())
        &&& self.creatures.counter() >= before.creatures.counter()
        &&& (forall|p: Pos|
            #[trigger] self.items.lookup(p) == before.items.lookup(p) || (self.items.lookup(p) == Some(Item::Health)
                && World::may_drop(fallen(before.creatures.items()), p)))
        &&& (self.items.keys().len() <= before.items.keys().len() || self.items.keys().len() <= before.item_limit())
        &&& (exists|rolls: Seq<i64>|
            rolls.len() == fallen(before.creatures.items()).len() && (self.items.to_map(), self.items.keys().len() as int)
                == #[trigger] World::dropped(
                (before.items.to_map(), before.items.keys().len() as int),
                fallen(before.creatures.items()),
                rolls,
                before.item_limit(),
                fallen(before.creatures.items()).len() as int,
            ))
        &&& self.creatures.items().len() >= alive(before.creatures.items()).len()
        &&& self.creatures.items().subrange(0, alive(before.creatures.items()).len() as int) == alive(
            before.creatures.items(),
        )
        &&& self.creatures.ids().subrange(0, alive(before.creatures.items()).len() as int) == alive_ids(
            before.creatures.ids(),
            before.creatures.items(),
        )
        &&& (forall|k: int|
            alive(before.creatures.items()).len() <= k < self.creatures.ids().len() ==> #[trigger] self.creatures.ids()[k]
                > before.creatures.counter())
        &&& (forall|k: int| 0 <= k < self.creatures.items().len() ==> (#[trigger] self.creatures.items()[k]).health.0 > 0)
        &&& (forall|k: int|
            alive(before.creatures.items()).len() <= k < self.creatures.items().len() ==> #[trigger] self.entered(before, k))
        &&& self.players@.len() == before.players@.len()
        &&& forall|k: int|
            0 <= k < before.players@.len() ==> {
                let was = before.players@[k];
                let now = #[trigger] self.players@[k];
                &&& now.0 == was.0
                &&& now.1 == (Player { plan: None, body: now.1.body, ..was.1 })
                &&& self.creatures.contains(now.1.body)
                &&& (before.has_living(was.1.body) ==> now.1.body == was.1.body)
                &&& (now.1.body != was.1.body ==> now.1.body > before.creatures.counter() && self.creatures.value(
                    now.1.body,
                ).is_new_player(was.0, was.1.sprite, before.spawnpoint, before.gamemode == GameMode::PvP))
            }
        &&& (self.to_spawn@.len() < before.to_spawn@.len() ==> self.creatures.items().len() > 0 && self.creatures.ids().last()
            > before.creatures.counter() && exists|i: int|
            0 <= i < before.monsterspawn@.len() && self.creatures.items().last().is_new(
                before.to_spawn@[0],
                #[trigger] before.monsterspawn@[i],
            ))
        &&& ((self.wave == before.wave + 1) <==> (before.gamemode != GameMode::PvP && before.to_spawn@.len() == 0
            && !self.spec_has_monsters()))
        &&& ((self.wave == before.wave + 1) <==> (before.gamemode != GameMode::PvP && before.to_spawn@.len() == 0
            && !before.monster_lives()))
        &&& (self.wave == before.wave + 1 ==> self.to_spawn@ == World::wave_of(before.gamemode, before.wave + 1))
        &&& (self.wave != before.wave + 1 ==> self.wave == before.wave && self.to_spawn@ == (if !(before.round_state is Paused)
            && before.time.0 % 5 == 0 && before.to_spawn@.len() > 0 {
            before.to_spawn@.drop_first()
        } else {
            before.to_spawn@
        }))
        &&& self.round_state == (if self.spec_round_over() {
            RoundState::GameOver(50)
        } else if self.wave == before.wave + 1 {
            RoundState::Paused(24)
        } else {
            before.round_state.spec_unpause()
        })
    }

    /// The part of a tick after the fighting: the dead leave the world,
    /// and the distances to the buildings are worked out anew if a
    /// building that is no monster's is among them; players and monsters
    /// spawn; the round is lost where the mode says so, with 50 ticks to
    /// a new one; and the time goes on.
    pub fn aftermath(&mut self)
        requires
            old(self).wf(),
            old(self).has_room(),
        ensures
            final(self).wf(),
            final(self).cleared(*old(self)),
    {
        let dead = self.reap();
        if has_building(&dead) {
            self.compute_building_distances();
        }
        let ghost reaped = *self;
        assert(old(self).charted() ==> reaped.charted());
        proof {
            crate::round::lemma_alive(old(self).creatures.items());
        }
        let ghost lost = dead@;
        self.spawn(dead);
        let ghost spawned = *self;
        proof {
            let rolls = choose|rolls: Seq<i64>|
                rolls.len() == lost.len() && (spawned.items.to_map(), spawned.items.keys().len() as int) == #[trigger] World::dropped(
                    (reaped.items.to_map(), reaped.items.keys().len() as int),
                    lost,
                    rolls,
                    reaped.item_limit(),
                    lost.len() as int,
                );
            assert(lost == fallen(old(self).creatures.items()));
            assert(reaped.items == old(self).items);
            assert(reaped.item_limit() == old(self).item_limit());
            assert((spawned.items.to_map(), spawned.items.keys().len() as int) == World::dropped(
                (old(self).items.to_map(), old(self).items.keys().len() as int),
                fallen(old(self).creatures.items()),
                rolls,
                old(self).item_limit(),
                fallen(old(self).creatures.items()).len() as int,
            ));
        }
        proof {
            assert forall|k: int|
                reaped.creatures.items().len() <= k < spawned.creatures.items().len() implies
                (#[trigger] spawned.creatures.items()[k]).health.0 > 0 by {
                assert(spawned.creatures.ids()[k] > reaped.creatures.counter());
            }
        }
        if self.round_over() {
            self.round_state = RoundState::GameOver(50);
        }
        self.time.0 += 1;
        proof {
            let n3 = reaped.creatures.items().len() as int;
            assert forall|k: int|
                0 <= k < self.creatures.items().len() implies
                (#[trigger] self.creatures.items()[k]).health.0 > 0 by {
                if k < n3 {
                    assert(self.creatures.items().subrange(0, n3)[k] == self.creatures.items()[k]);
                    assert(reaped.creatures.items()[k] == crate::round::alive(old(self).creatures.items())[k]);
                    assert(crate::round::alive(old(self).creatures.items())[k].health.0 > 0);
                } else {
                    assert(spawned.creatures.items()[k].health.0 > 0);
                }
            }
            assert(self.spec_round_over() == spawned.spec_round_over());
            assert(self.spec_has_monsters() == spawned.spec_has_monsters());
            old(self).lemma_monsters_alive(reaped);
            assert forall|k: int| 0 <= k < old(self).players@.len() && old(self).has_living(old(self).players@[k].1.body) implies (#[trigger] self.players@[k]).1.body
                == old(self).players@[k].1.body by {
                old(self).lemma_living_kept(reaped, old(self).players@[k].1.body);
                assert(spawned.players@[k].1.body == reaped.players@[k].1.body);
            }
            assert forall|k: int| n3 <= k < self.creatures.items().len() implies #[trigger] self.entered(*old(self), k) by {
                assert(spawned.entered(reaped, k));
            }
            if old(self).charted() {
                assert forall|k: int|
                    n3 <= k < self.creatures.items().len() implies
                    !is_stronghold(#[trigger] self.creatures.items()[k]) by {
                    assert(!self.creatures.items()[k].is_building);
                }
                lemma_sources_grow(reaped.creatures.items(), self.creatures.items());
            }
            if World::cells_distinct(old(self).creatures.items()) {
                assert forall|a: int, b: int|
                    0 <= a < b < self.creatures.items().len() && self.creatures.ids()[a] <= old(self).creatures.counter() && self.creatures.ids()[b] <= old(self).creatures.counter() implies
                    (#[trigger] self.creatures.items()[a]).pos != (#[trigger] self.creatures.items()[b]).pos by {
                    assert(a < n3 && b < n3);
                    assert(self.creatures.items().subrange(0, n3)[a] == self.creatures.items()[a]);
                    assert(self.creatures.items().subrange(0, n3)[b] == self.creatures.items()[b]);
                    assert(reaped.creatures.items()[a].pos != reaped.creatures.items()[b].pos);
                }
            }
        }
    }

    /// What a tick of the time after a lost round does to the world,
    /// with `n` ticks of that time left before it. While more than one
    /// is left, all stays as it was but the particles, over which the
    /// text is written, see `text_written`, the dice, and the count of the
    /// ticks left. With the
    /// last one a new round begins: the world is fresh, see `is_fresh`,
    /// and every player is due the whole field.
    pub open spec fn wound_down(self, before: World, n: i64) -> bool {
        &&& self.time == before.time
        &&& self.gamemode == before.gamemode
        &&& self.map == before.map
        &&& (n > 1 ==> self == (World {
            particles: self.particles,
            dice: self.dice,
            round_state: RoundState::GameOver((n - 1) as i64),
            ..before
        }) && exists|origin: Pos| #[trigger] self.text_written(before, origin))
        &&& (n <= 1 ==> self.is_fresh() && self.players@.len() == before.players@.len() && forall|k: int|
            0 <= k < before.players@.len() ==> #[trigger] self.players@[k] == (
                before.players@[k].0,
                Player { is_new: true, ..before.players@[k].1 },
            ))
    }

    /// What a tick does to the world: a tick of the round, see `ticked`
    /// and `went_through`, or of the time after a lost round, see
    /// `wound_down`.
    pub open spec fn advanced(self, before: World) -> bool {
        match before.round_state {
            RoundState::GameOver(n) => self.wound_down(before, n),
            _ => self.ticked(before) && self.went_through(before),
        }
    }

    /// One tick of a round that is not lost: the fighting, see `battle`,
    /// and what comes after it, see `aftermath`.
    pub fn update_round(&mut self)
        requires
            old(self).wf(),
            old(self).has_room(),
            !(old(self).round_state is GameOver),
        ensures
            final(self).wf(),
            final(self).ticked(*old(self)),
            final(self).went_through(*old(self)),
    {
        self.battle();
        let ghost fought = *self;
        self.aftermath();
        proof {
            self.lemma_creatures_after(fought, *old(self));
            assert(self.cleared(fought));
            assert(fought.fought(*old(self)));
            assert(self.bullets_calm());
            if World::cells_distinct(old(self).creatures.items()) {
                assert(self.veterans_distinct(old(self).creatures.counter()));
            }
        }
    }

    /// Advances the world by one tick: a tick of the round, see
    /// `update_round`, or of the time after a lost round, see
    /// `update_game_over`.
    pub fn update(&mut self)
        requires
            old(self).wf(),
            old(self).has_room(),
        ensures
            final(self).wf(),
            final(self).gamemode == old(self).gamemode,
            final(self).map == old(self).map,
            final(self).players@.len() == old(self).players@.len(),
            forall|k: int| 0 <= k < old(self).players@.len() ==> (#[trigger] final(self).players@[k]).0 == old(self).players@[k].0,
            old(self).bullets_calm() ==> final(self).bullets_calm(),
            old(self).charted() ==> final(self).charted(),
            World::cells_distinct(old(self).creatures.items()) ==> final(self).veterans_distinct(old(self).creatures.counter()),
            final(self).advanced(*old(self)),
    {
        match self.round_state {
            RoundState::GameOver(n) => {
                self.update_game_over(n);
                proof {
                    if n > 1 {
                        assert(self.creatures == old(self).creatures);
                    }
                }
            },
            _ => {
                self.update_round();
            },
        }
    }

    /// Whether the counters of the world have room for one more tick,
    /// see `has_room`.
    pub fn ready(&self) -> (b: bool)
        requires
            self.wf(),
        ensures
            b == self.has_room(),
    {
        let seeds: usize = match &self.map {
            crate::mapgen::MapType::Builtin(_) => 4,
            crate::mapgen::MapType::Custom(template) => template.creatures.len(),
        };
        let counter = self.creatures.last_key();
        let players = self.players.len();
        self.time.0 < i64::MAX && self.wave <= usize::MAX - 5 && counter <= usize::MAX - 1 && players <= usize::MAX - 1
            - counter && seeds <= usize::MAX - 1 - counter - players
    }
}

/// No wave is without monsters.
pub proof fn lemma_wave_has_monsters(gamemode: GameMode, wave: int)
    requires
        0 <= wave,
    ensures
        World::wave_of(gamemode, wave).len() > 0,
{
    crate::waves::lemma_wave_length(wave);
    crate::waves::lemma_substitute_length(gamemode, crate::waves::spec_wave_composition(wave));
}

/// A wave begins with a pause. In the tick in which the number of the
/// wave goes up, the mode is one with waves, the monsters of the new wave
/// wait to enter, and unless the round is lost the pause has 24 ticks left.
pub proof fn lemma_wave_begins(before: World, after: World)
    requires
        after.ticked(before),
        after.wave == before.wave + 1,
    ensures
        before.gamemode != GameMode::PvP,
        after.to_spawn@ == World::wave_of(before.gamemode, after.wave as int),
        after.to_spawn@.len() > 0,
        after.round_state == RoundState::Paused(24) || after.round_state == RoundState::GameOver(50),
{
    lemma_wave_has_monsters(before.gamemode, after.wave as int);
}

/// A wave follows the last monster. In a mode with waves, where no
/// monster has health and none waits to enter, the next tick of the round
/// raises the number of the wave by one and lets the monsters of the new
/// wave wait; the round then pauses for 24 more ticks, unless it is lost.
pub proof fn lemma_wave_follows(before: World, after: World)
    requires
        after.ticked(before),
        before.gamemode != GameMode::PvP,
        before.to_spawn@.len() == 0,
        !before.monster_lives(),
    ensures
        after.wave == before.wave + 1,
        after.to_spawn@ == World::wave_of(before.gamemode, before.wave + 1),
        after.to_spawn@.len() > 0,
        after.round_state == (if after.spec_round_over() {
            RoundState::GameOver(50)
        } else {
            RoundState::Paused(24)
        }),
{
    lemma_wave_has_monsters(before.gamemode, before.wave + 1);
}

/// Without its pillars the round is lost. Where pillars are defended,
/// no pillar of the players has health and no pillar waits to enter, the
/// next tick of the round leaves no pillar of the players in the world,
/// and the round is over with 50 ticks to a new one.
pub proof fn lemma_pillars_lost(before: World, after: World)
    requires
        before.wf(),
        after.wf(),
        after.ticked(before),
        before.gamemode == GameMode::PillarDefence,
        forall|k: int|
            0 <= k < before.creatures.items().len() && (#[trigger] before.creatures.items()[k]).mind is Pillar
                && before.creatures.items()[k].alignment == Alignment::Players ==> before.creatures.items()[k].health.0 <= 0,
        forall|i: int| 0 <= i < before.to_spawn@.len() ==> !((#[trigger] before.to_spawn@[i]) is Pillar),
    ensures
        forall|k: int|
            0 <= k < after.creatures.items().len() ==> !((#[trigger] after.creatures.items()[k]).mind is Pillar
                && after.creatures.items()[k].alignment == Alignment::Players),
        after.round_state == RoundState::GameOver(50),
{
    assert forall|k: int| 0 <= k < after.creatures.items().len() implies !((#[trigger] after.creatures.items()[k]).mind is Pillar
        && after.creatures.items()[k].alignment == Alignment::Players) by {
        let key = after.creatures.ids()[k];
        after.creatures.lemma_place(k);
        if key <= before.creatures.counter() {
            assert(after.stayed(before, k));
            let m = before.creatures.place(key);
            assert(before.creatures.items()[m] == before.creatures.value(key));
        } else {
            assert(after.entered(before, k));
            if exists|j: int|
                0 <= j < after.players@.len() && (#[trigger] after.players@[j]).1.body == key && before.players@[j].1.body != key {
                let j = choose|j: int|
                    0 <= j < after.players@.len() && (#[trigger] after.players@[j]).1.body == key && before.players@[j].1.body != key;
                assert(after.creatures.items()[k].mind is Player);
            } else {
                assert(after.creatures.items().last() == after.creatures.items()[k]);
                assert(!(before.to_spawn@[0] is Pillar));
            }
        }
    }
}

/// The time after a lost round runs down tick by tick, and at its end
/// a new round begins. Take the worlds of successive ticks, beginning with
/// one in which the round is lost with `n` ticks to a new one. After
/// fewer than `n` ticks as many ticks less are left, and all else stays
/// as it was but the particles and the dice. After `n` ticks the world
/// is fresh, at the time at which the round was lost, and every player is
/// as before and due the whole field.
pub proof fn lemma_game_over_runs_down(worlds: Seq<World>, n: i64, k: int)
    requires
        n >= 1,
        0 <= k < worlds.len(),
        k <= n,
        worlds[0].round_state == RoundState::GameOver(n),
        forall|i: int| 1 <= i < worlds.len() ==> (#[trigger] worlds[i]).advanced(worlds[i - 1]),
    ensures
        k < n ==> worlds[k] == (World {
            particles: worlds[k].particles,
            dice: worlds[k].dice,
            round_state: RoundState::GameOver((n - k) as i64),
            ..worlds[0]
        }),
        k == n ==> worlds[k].is_fresh() && worlds[k].time == worlds[0].time && worlds[k].gamemode == worlds[0].gamemode
            && worlds[k].map == worlds[0].map && worlds[k].players@.len() == worlds[0].players@.len() && forall|j: int|
            0 <= j < worlds[0].players@.len() ==> #[trigger] worlds[k].players@[j] == (
                worlds[0].players@[j].0,
                Player { is_new: true, ..worlds[0].players@[j].1 },
            ),
    decreases k,
{
    if k > 0 {
        lemma_game_over_runs_down(worlds, n, k - 1);
        assert(worlds[k].advanced(worlds[k - 1]));
        assert(worlds[k].wound_down(worlds[k - 1], (n - k + 1) as i64));
    }
}

/// A shot costs the cooldown of the weapon, not that of walking. Take
/// a tick of a round, and a body in the world before and after it that
/// had health and no cooldown, whose player asked for a shot, and which
/// had its weapon at hand. After the tick its cooldown is that of the
/// weapon, and it faces where the shot was to go.
pub proof fn lemma_shot_cooldown(before: World, after: World, k: int, j: int, turn: Option<Direction>)
    requires
        before.wf(),
        after.wf(),
        after.went_through(before),
        0 <= k < before.creatures.items().len(),
        0 <= j < before.players@.len(),
        before.creatures.items()[k].mind == Mind::Player(before.players@[j].0),
        before.players@[j].1.plan == Some(Control::Shoot(turn)),
        before.creatures.items()[k].health.0 > 0,
        before.creatures.items()[k].cooldown.0 == 0,
        before.creatures.items()[k].spec_weapon() is Some,
        after.creatures.contains(before.creatures.ids()[k]),
    ensures
        after.creatures.value(before.creatures.ids()[k]).cooldown == before.creatures.items()[k].spec_weapon().unwrap().cooldown,
        after.creatures.value(before.creatures.ids()[k]).dir == (match turn {
            Some(dir) => dir,
            None => before.creatures.items()[k].dir,
        }),
{
    let mid = choose|mid: World| #[trigger] mid.fought(before) && mid.wf() && after.cleared(mid);
    mid.lemma_shot_in_battle(before, k, j, turn);
    after.lemma_survivor(mid, k);
}

/// A pause runs down tick by tick. While the worlds of successive
/// ticks go through a pause of `n` ticks in which the round is not lost,
/// `n - k` ticks of it are left after `k` ticks, no monster enters and
/// the wave stays as it is.
pub proof fn lemma_pause_runs_down(worlds: Seq<World>, n: i64, k: int)
    requires
        n >= 1,
        0 <= k < worlds.len(),
        k <= n,
        worlds[0].round_state == RoundState::Paused(n),
        worlds[0].to_spawn@.len() > 0,
        forall|i: int| 1 <= i < worlds.len() ==> (#[trigger] worlds[i]).ticked(worlds[i - 1]) && !(worlds[i].round_state is GameOver),
    ensures
        worlds[k].round_state == RoundState::Paused(n).after(k as nat),
        worlds[k].round_state == (if k < n {
            RoundState::Paused((n - k) as i64)
        } else {
            RoundState::Running
        }),
        worlds[k].wave == worlds[0].wave,
        worlds[k].to_spawn@ == worlds[0].to_spawn@,
    decreases k,
{
    RoundState::lemma_countdown(n, k as nat);
    if k > 0 {
        lemma_pause_runs_down(worlds, n, k - 1);
        RoundState::lemma_countdown(n, (k - 1) as nat);
        assert(worlds[k].ticked(worlds[k - 1]));
    }
}

/// Each wave is announced once. Take the worlds of successive ticks
/// in which the round is not lost, beginning with the one before the tick
/// in which the number of the wave goes up, up to the end of the pause
/// with which the wave begins. Among them the round has one tick of the
/// pause left in exactly one world, the one 24 ticks in; there the
/// number of the wave is the new one, and its monsters wait to enter.
pub proof fn lemma_wave_is_announced_once(worlds: Seq<World>)
    requires
        2 <= worlds.len() <= 26,
        worlds[1].wave == worlds[0].wave + 1,
        forall|i: int| 1 <= i < worlds.len() ==> (#[trigger] worlds[i]).ticked(worlds[i - 1]) && !(worlds[i].round_state is GameOver),
    ensures
        worlds[0].gamemode != GameMode::PvP,
        forall|k: int| 1 <= k < worlds.len() ==> ((#[trigger] worlds[k]).round_state == RoundState::Paused(1) <==> k == 24),
        forall|k: int|
            1 <= k < worlds.len() ==> (#[trigger] worlds[k]).wave == worlds[0].wave + 1 && worlds[k].to_spawn@
                == World::wave_of(worlds[0].gamemode, worlds[0].wave + 1) && worlds[k].to_spawn@.len() > 0,
{
    lemma_wave_begins(worlds[0], worlds[1]);
    let pause = worlds.subrange(1, worlds.len() as int);
    assert forall|i: int|
        1 <= i < pause.len() implies
        (#[trigger] pause[i]).ticked(pause[i - 1]) && !(pause[i].round_state is GameOver) by {
        assert(pause[i] == worlds[i + 1]);
        assert(pause[i - 1] == worlds[i]);
        assert(worlds[i + 1].ticked(worlds[i + 1 - 1]));
    }
    assert forall|k: int|
        1 <= k < worlds.len() implies
        ((#[trigger] worlds[k]).round_state == RoundState::Paused(1) <==> k == 24) && worlds[k].wave == worlds[0].wave + 1 && worlds[k].to_spawn@ == World::wave_of(worlds[0].gamemode, worlds[0].wave + 1) && worlds[k].to_spawn@.len() > 0 by {
        lemma_pause_runs_down(pause, 24, k - 1);
        assert(pause[k - 1] == worlds[k]);
    }
}

} // verus!
