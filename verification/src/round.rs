use vstd::prelude::*;
use crate::creature::{Alignment, Creature, CreatureType};
use crate::gamemode::GameMode;
use crate::item::Item;
use crate::player::Player;
use crate::playerid::PlayerId;
use crate::pos::Pos;
use crate::posmap::PosMap;
use crate::tile::Tile;
use crate::waves::{mode_substitute, spec_mode_substitute, spec_wave_composition, wave_composition};
use crate::world::{is_stronghold, RoundState, sources, World};

verus! {

/// The creatures that live, in their order.
pub open spec fn alive(creatures: Seq<Creature>) -> Seq<Creature>
    decreases creatures.len(),
{
    if creatures.len() == 0 {
        Seq::empty()
    } else if creatures.last().health.0 > 0 {
        alive(creatures.drop_last()).push(creatures.last())
    } else {
        alive(creatures.drop_last())
    }
}

/// The creatures that are dead, in their order.
pub open spec fn fallen(creatures: Seq<Creature>) -> Seq<Creature>
    decreases creatures.len(),
{
    if creatures.len() == 0 {
        Seq::empty()
    } else if creatures.last().health.0 <= 0 {
        fallen(creatures.drop_last()).push(creatures.last())
    } else {
        fallen(creatures.drop_last())
    }
}

/// The keys of the creatures that live, in their order.
pub open spec fn alive_ids(ids: Seq<usize>, creatures: Seq<Creature>) -> Seq<usize>
    recommends
        ids.len() == creatures.len(),
    decreases creatures.len(),
{
    if creatures.len() == 0 || ids.len() == 0 {
        Seq::empty()
    } else if creatures.last().health.0 > 0 {
        alive_ids(ids.drop_last(), creatures.drop_last()).push(ids.last())
    } else {
        alive_ids(ids.drop_last(), creatures.drop_last())
    }
}

/// Whether a building that is no monster's is among the creatures.
pub open spec fn building_among(creatures: Seq<Creature>) -> bool {
    exists|k: int| 0 <= k < creatures.len() && is_stronghold(#[trigger] creatures[k])
}

/// Where no building of the players' side is among the dead, the
/// living have the same buildings to look for as all had.
pub proof fn lemma_sources_alive(creatures: Seq<Creature>)
    requires
        !building_among(fallen(creatures)),
    ensures
        sources(alive(creatures), true) == sources(creatures, true),
    decreases creatures.len(),
{
    if creatures.len() > 0 {
        let front = creatures.drop_last();
        let last = creatures.last();
        if building_among(fallen(front)) {
            let k = choose|k: int| 0 <= k < fallen(front).len() && is_stronghold(#[trigger] fallen(front)[k]);
            assert(fallen(creatures)[k] == fallen(front)[k]);
        }
        lemma_sources_alive(front);
        if last.health.0 <= 0 {
            assert(fallen(creatures)[fallen(front).len() as int] == last);
            assert(!is_stronghold(last));
        } else {
            assert(alive(creatures).drop_last() =~= alive(front));
        }
    }
}

/// Every creature that lives has health, and comes from among the creatures.
pub proof fn lemma_alive(creatures: Seq<Creature>)
    ensures
        alive(creatures).len() <= creatures.len(),
        forall|k: int| 0 <= k < alive(creatures).len() ==> (#[trigger] alive(creatures)[k]).health.0 > 0 && creatures.contains(alive(creatures)[k]),
    decreases creatures.len(),
{
    if creatures.len() > 0 {
        let front = creatures.drop_last();
        lemma_alive(front);
        assert forall|k: int|
            0 <= k < alive(creatures).len() implies
            (#[trigger] alive(creatures)[k]).health.0 > 0 && creatures.contains(alive(creatures)[k]) by {
            if k < alive(front).len() {
                let c = alive(front)[k];
                let w = front.index_of(c);
                assert(creatures[w] == c);
            } else {
                assert(creatures[creatures.len() - 1] == creatures.last());
            }
        }
    }
}

/// As many keys are kept as creatures live.
pub proof fn lemma_alive_ids_len(ids: Seq<usize>, creatures: Seq<Creature>)
    requires
        ids.len() == creatures.len(),
    ensures
        alive_ids(ids, creatures).len() == alive(creatures).len(),
    decreases creatures.len(),
{
    if creatures.len() > 0 {
        lemma_alive_ids_len(ids.drop_last(), creatures.drop_last());
    }
}

/// The creature at place `k` among the living has health; the result
/// is its place among all, where its key stands too.
pub proof fn lemma_alive_place(ids: Seq<usize>, creatures: Seq<Creature>, k: int) -> (m: int)
    requires
        ids.len() == creatures.len(),
        0 <= k < alive(creatures).len(),
    ensures
        0 <= m < creatures.len(),
        creatures[m] == alive(creatures)[k],
        ids[m] == alive_ids(ids, creatures)[k],
        creatures[m].health.0 > 0,
    decreases creatures.len(),
{
    let front = creatures.drop_last();
    lemma_alive_ids_len(ids.drop_last(), front);
    if creatures.last().health.0 > 0 && k == alive(front).len() {
        creatures.len() - 1
    } else {
        lemma_alive_place(ids.drop_last(), front, k)
    }
}

/// A creature with health is among the living; the result is its place there.
pub proof fn lemma_alive_holds(creatures: Seq<Creature>, m: int) -> (k: int)
    requires
        0 <= m < creatures.len(),
        creatures[m].health.0 > 0,
    ensures
        0 <= k < alive(creatures).len(),
        alive(creatures)[k] == creatures[m],
    decreases creatures.len(),
{
    let front = creatures.drop_last();
    if m == creatures.len() - 1 {
        alive(front).len() as int
    } else {
        lemma_alive_holds(front, m)
    }
}

/// The key of a creature with health is among the keys that are
/// kept; the result is its place there.
pub proof fn lemma_alive_id_holds(ids: Seq<usize>, creatures: Seq<Creature>, m: int) -> (k: int)
    requires
        ids.len() == creatures.len(),
        0 <= m < creatures.len(),
        creatures[m].health.0 > 0,
    ensures
        0 <= k < alive_ids(ids, creatures).len(),
        alive_ids(ids, creatures)[k] == ids[m],
    decreases creatures.len(),
{
    let front = creatures.drop_last();
    if m == creatures.len() - 1 {
        alive_ids(ids.drop_last(), front).len() as int
    } else {
        lemma_alive_id_holds(ids.drop_last(), front, m)
    }
}

impl World {
    /// The third part of a tick: the creatures without health leave the
    /// world and are handed back, in their order.
    pub fn reap(&mut self) -> (dead: Vec<Creature>)
        requires
            old(self).wf(),
        ensures
            final(self).wf(),
            *final(self) == (World { creatures: final(self).creatures, ..*old(self) }),
            final(self).creatures.counter() == old(self).creatures.counter(),
            final(self).creatures.items() == alive(old(self).creatures.items()),
            final(self).creatures.ids() == alive_ids(old(self).creatures.ids(), old(self).creatures.items()),
            dead@ == fallen(old(self).creatures.items()),
            World::cells_distinct(old(self).creatures.items()) ==> World::cells_distinct(final(self).creatures.items()),
            forall|key: usize| final(self).creatures.contains(key) ==> old(self).creatures.contains(key),
            !building_among(dead@) ==> sources(final(self).creatures.items(), true) == sources(
                old(self).creatures.items(),
                true,
            ),
    {
        let mut dead: Vec<Creature> = Vec::new();
        let ghost items0 = self.creatures.items();
        let ghost ids0 = self.creatures.ids();
        let ghost n0 = items0.len() as int;
        let ghost mut j: int = 0;
        let mut i: usize = 0;
        assert(items0.subrange(0, n0) =~= items0);
        assert(ids0.subrange(0, n0) =~= ids0);
        while i < self.creatures.len()
            invariant
                old(self).wf(),
                items0 == old(self).creatures.items(),
                ids0 == old(self).creatures.ids(),
                n0 == items0.len(),
                *self == (World { creatures: self.creatures, ..*old(self) }),
                self.creatures.wf(),
                self.creatures.counter() == old(self).creatures.counter(),
                0 <= j <= n0,
                i == alive(items0.subrange(0, j)).len(),
                self.creatures.items() == alive(items0.subrange(0, j)) + items0.subrange(j, n0),
                self.creatures.ids() == alive_ids(ids0.subrange(0, j), items0.subrange(0, j)) + ids0.subrange(j, n0),
                alive_ids(ids0.subrange(0, j), items0.subrange(0, j)).len() == i,
                dead@ == fallen(items0.subrange(0, j)),
                forall|k: int| 0 <= k < self.creatures.items().len() ==> (#[trigger] self.creatures.items()[k]).wf() && self.ground.contains(self.creatures.items()[k].pos),
                World::cells_distinct(items0) ==> World::cells_distinct(self.creatures.items()),
                forall|key: usize| self.creatures.contains(key) ==> old(self).creatures.contains(key),
            decreases n0 - j,
        {
            let ghost cur = self.creatures;
            proof {
                assert(cur.items()[i as int] == items0[j]);
                assert(cur.ids()[i as int] == ids0[j]);
                let next = items0.subrange(0, j + 1);
                assert(next.drop_last() =~= items0.subrange(0, j));
                assert(next.last() == items0[j]);
                let next_ids = ids0.subrange(0, j + 1);
                assert(next_ids.drop_last() =~= ids0.subrange(0, j));
                assert(next_ids.last() == ids0[j]);
                cur.lemma_place(i as int);
            }
            if self.creatures.value_at(i).is_dead() {
                let key = self.creatures.key_at(i);
                match self.creatures.remove(&key) {
                    Some(creature) => {
                        dead.push(creature);
                    },
                    None => {},
                }
                proof {
                    assert(self.creatures.items() =~= alive(items0.subrange(0, j + 1)) + items0.subrange(j + 1, n0));
                    assert(self.creatures.ids() =~= alive_ids(ids0.subrange(0, j + 1), items0.subrange(0, j + 1)) + ids0.subrange(j + 1, n0));
                    assert forall|k: int|
                        0 <= k < self.creatures.items().len() implies
                        (#[trigger] self.creatures.items()[k]).wf() && self.ground.contains(self.creatures.items()[k].pos) by {
                        if k < i {
                            assert(self.creatures.items()[k] == cur.items()[k]);
                        } else {
                            assert(self.creatures.items()[k] == cur.items()[k + 1]);
                        }
                    }
                    if World::cells_distinct(items0) {
                        assert forall|a: int, b: int|
                            0 <= a < b < self.creatures.items().len() implies
                            (#[trigger] self.creatures.items()[a]).pos != (#[trigger] self.creatures.items()[b]).pos by {
                            let a0 = if a < i { a } else { a + 1 };
                            let b0 = if b < i { b } else { b + 1 };
                            assert(self.creatures.items()[a] == cur.items()[a0]);
                            assert(self.creatures.items()[b] == cur.items()[b0]);
                        }
                    }
                    assert forall|other: usize|
                        self.creatures.contains(other) implies
                        old(self).creatures.contains(other) by {
                        let w = self.creatures.ids().index_of(other);
                        assert(self.creatures.ids()[w] == other);
                        if w < i {
                            assert(cur.ids()[w] == other);
                        } else {
                            assert(cur.ids()[w + 1] == other);
                        }
                        assert(cur.contains(other));
                    }
                    j = j + 1;
                }
            } else {
                proof {
                    assert(self.creatures.items() =~= alive(items0.subrange(0, j + 1)) + items0.subrange(j + 1, n0));
                    assert(self.creatures.ids() =~= alive_ids(ids0.subrange(0, j + 1), items0.subrange(0, j + 1)) + ids0.subrange(j + 1, n0));
                    j = j + 1;
                }
                i += 1;
            }
        }
        proof {
            assert(items0.subrange(j, n0).len() == 0);
            assert(j == n0);
            assert(self.creatures.items() =~= alive(items0));
            assert(self.creatures.ids() =~= alive_ids(ids0, items0));
            if !building_among(dead@) {
                lemma_sources_alive(items0);
            }
        }
        dead
    }

    /// Whether a monster is in the world.
    pub open spec fn spec_has_monsters(self) -> bool {
        exists|k: int| 0 <= k < self.creatures.items().len() && (#[trigger] self.creatures.items()[k]).alignment == Alignment::Monsters
    }

    /// Whether a monster is in the world.
    pub fn has_monsters(&self) -> (b: bool)
        requires
            self.creatures.wf(),
        ensures
            b == self.spec_has_monsters(),
    {
        let n = self.creatures.len();
        let mut i: usize = 0;
        while i < n
            invariant
                self.creatures.wf(),
                n == self.creatures.items().len(),
                i <= n,
                forall|k: int| 0 <= k < i ==> (#[trigger] self.creatures.items()[k]).alignment != Alignment::Monsters,
            decreases n - i,
        {
            if self.creatures.value_at(i).alignment == Alignment::Monsters {
                return true;
            }
            i += 1;
        }
        false
    }

    /// Whether the round is lost. With pillars to defend it is lost
    /// when no pillar of the players stands; in survival when, after the
    /// first wave, no body of a player is off sanctuary; else never.
    pub open spec fn spec_round_over(self) -> bool {
        match self.gamemode {
            GameMode::PillarDefence => forall|k: int|
                0 <= k < self.creatures.items().len() ==> !((#[trigger] self.creatures.items()[k]).mind is Pillar
                    && self.creatures.items()[k].alignment == Alignment::Players),
            GameMode::Survival => self.wave > 1 && forall|k: int|
                0 <= k < self.players@.len() ==> !self.stands_off((#[trigger] self.players@[k]).1.body),
            GameMode::PvP => false,
        }
    }

    /// Whether `body` is a creature that stands somewhere else than on sanctuary.
    pub open spec fn stands_off(self, body: usize) -> bool {
        self.creatures.contains(body) && self.ground.lookup(self.creatures.value(body).pos) != Some(Tile::Sanctuary)
    }

    /// Whether the round is lost, see `spec_round_over`.
    pub fn round_over(&self) -> (b: bool)
        requires
            self.wf(),
        ensures
            b == self.spec_round_over(),
    {
        match self.gamemode {
            GameMode::PillarDefence => {
                let n = self.creatures.len();
                let mut i: usize = 0;
                while i < n
                    invariant
                        self.wf(),
                        self.gamemode == GameMode::PillarDefence,
                        n == self.creatures.items().len(),
                        i <= n,
                        forall|k: int| 0 <= k < i ==> !((#[trigger] self.creatures.items()[k]).mind is Pillar && self.creatures.items()[k].alignment == Alignment::Players),
                    decreases n - i,
                {
                    let c = self.creatures.value_at(i);
                    let pillar = match c.mind {
                        crate::creature::Mind::Pillar => true,
                        _ => false,
                    };
                    if pillar && c.alignment == Alignment::Players {
                        assert(self.creatures.items()[i as int].mind is Pillar && self.creatures.items()[i as int].alignment == Alignment::Players);
                        return false;
                    }
                    i += 1;
                }
                true
            },
            GameMode::Survival => {
                if self.wave <= 1 {
                    return false;
                }
                let n = self.players.len();
                let mut i: usize = 0;
                while i < n
                    invariant
                        self.wf(),
                        self.gamemode == GameMode::Survival,
                        self.wave > 1,
                        n == self.players@.len(),
                        i <= n,
                        forall|k: int| 0 <= k < i ==> !self.stands_off((#[trigger] self.players@[k]).1.body),
                    decreases n - i,
                {
                    let body = self.players[i].1.body;
                    match self.creatures.get(&body) {
                        Some(creature) => {
                            let on_sanctuary = match self.ground.get(creature.pos) {
                                Some(tile) => *tile == Tile::Sanctuary,
                                None => false,
                            };
                            if !on_sanctuary {
                                assert(self.stands_off(self.players@[i as int].1.body));
                                return false;
                            }
                        },
                        None => {},
                    }
                    i += 1;
                }
                true
            },
            GameMode::PvP => false,
        }
    }
}

impl World {
    /// Whether the creatures with keys up to `counter` stand on cells of their own.
    pub open spec fn veterans_distinct(self, counter: usize) -> bool {
        forall|a: int, b: int|
            0 <= a < b < self.creatures.items().len() && self.creatures.ids()[a] <= counter && self.creatures.ids()[b]
                <= counter ==> (#[trigger] self.creatures.items()[a]).pos != (#[trigger] self.creatures.items()[b]).pos
    }

    /// Whether the creature at place `k` has entered the world since
    /// `before`: as the new body of a player, or, as the last of the
    /// creatures, for the monster that has left those that wait.
    pub open spec fn entered(self, before: World, k: int) -> bool {
        ||| exists|j: int|
            0 <= j < self.players@.len() && (#[trigger] self.players@[j]).1.body == self.creatures.ids()[k]
                && before.players@[j].1.body != self.creatures.ids()[k]
        ||| (k == self.creatures.items().len() - 1 && self.to_spawn@.len() < before.to_spawn@.len())
    }

    /// Whether the creature at place `k` was in the world `before`, with
    /// health, and is of the kind that it was.
    pub open spec fn stayed(self, before: World, k: int) -> bool {
        let key = self.creatures.ids()[k];
        &&& before.creatures.contains(key)
        &&& before.creatures.value(key).health.0 > 0
        &&& World::same_kind(self.creatures.items()[k], before.creatures.value(key))
    }

    /// Whether the world holds a creature with health under `key`.
    pub open spec fn has_living(self, key: usize) -> bool {
        self.creatures.contains(key) && self.creatures.value(key).health.0 > 0
    }

    /// The keys that are kept when the dead leave are those of the
    /// creatures with health.
    pub proof fn lemma_living_kept(self, reaped: World, key: usize)
        requires
            self.creatures.wf(),
            reaped.creatures.ids() == alive_ids(self.creatures.ids(), self.creatures.items()),
        ensures
            reaped.creatures.contains(key) == self.has_living(key),
    {
        let ids = self.creatures.ids();
        let all = self.creatures.items();
        lemma_alive_ids_len(ids, all);
        if reaped.creatures.contains(key) {
            let k = reaped.creatures.ids().index_of(key);
            let m = lemma_alive_place(ids, all, k);
            self.creatures.lemma_place(m);
        }
        if self.has_living(key) {
            let m = self.creatures.place(key);
            assert(ids[m] == key);
            let k = lemma_alive_id_holds(ids, all, m);
            assert(reaped.creatures.ids()[k] == key);
        }
    }

    /// Whether a monster in the world has health.
    pub open spec fn monster_lives(self) -> bool {
        exists|k: int|
            0 <= k < self.creatures.items().len() && (#[trigger] self.creatures.items()[k]).alignment == Alignment::Monsters
                && self.creatures.items()[k].health.0 > 0
    }

    /// The living among the creatures hold a monster where a monster has health.
    pub proof fn lemma_monsters_alive(self, reaped: World)
        requires
            reaped.creatures.items() == alive(self.creatures.items()),
        ensures
            reaped.spec_has_monsters() == self.monster_lives(),
    {
        let all = self.creatures.items();
        lemma_alive(all);
        if reaped.spec_has_monsters() {
            let k = choose|k: int| 0 <= k < reaped.creatures.items().len() && (#[trigger] reaped.creatures.items()[k]).alignment == Alignment::Monsters;
            let c = alive(all)[k];
            let m = all.index_of(c);
            assert(all[m].alignment == Alignment::Monsters && all[m].health.0 > 0);
        }
        if self.monster_lives() {
            let m = choose|m: int| 0 <= m < all.len() && (#[trigger] all[m]).alignment == Alignment::Monsters && all[m].health.0 > 0;
            let k = lemma_alive_holds(all, m);
            assert(reaped.creatures.items()[k].alignment == Alignment::Monsters);
        }
    }

    /// Whether no bullet is beyond its range or on a tile that stops bullets.
    pub open spec fn bullets_calm(self) -> bool {
        forall|k: int|
            0 <= k < self.bullets@.len() ==> !(#[trigger] self.bullets@[k]).spec_out_of_range() && !(self.ground.lookup(
                self.bullets@[k].pos,
            ) is Some && self.ground.lookup(self.bullets@[k].pos).unwrap().blocks_bullets())
    }

    /// Gives every player without a living body a new one on the spawn
    /// point, and clears the plans of all players.
    pub fn respawn_players(&mut self)
        requires
            old(self).wf(),
            old(self).creatures.counter() + old(self).players@.len() <= usize::MAX,
        ensures
            final(self).wf(),
            *final(self) == (World { creatures: final(self).creatures, players: final(self).players, ..*old(self) }),
            final(self).players@.len() == old(self).players@.len(),
            forall|k: int|
                0 <= k < old(self).players@.len() ==> {
                    let before = old(self).players@[k];
                    let after = #[trigger] final(self).players@[k];
                    &&& after.0 == before.0
                    &&& after.1 == (Player { plan: None, body: after.1.body, ..before.1 })
                    &&& final(self).creatures.contains(after.1.body)
                    &&& (old(self).creatures.contains(before.1.body) ==> after.1.body == before.1.body)
                    &&& (!old(self).creatures.contains(before.1.body) ==> after.1.body > old(self).creatures.counter()
                        && final(self).creatures.value(after.1.body).is_new_player(
                        before.0,
                        before.1.sprite,
                        old(self).spawnpoint,
                        old(self).gamemode == GameMode::PvP,
                    ))
                },
            final(self).creatures.items().len() >= old(self).creatures.items().len(),
            final(self).creatures.items().subrange(0, old(self).creatures.items().len() as int) == old(self).creatures.items(),
            final(self).creatures.ids().subrange(0, old(self).creatures.ids().len() as int) == old(self).creatures.ids(),
            old(self).creatures.counter() <= final(self).creatures.counter() <= old(self).creatures.counter() + old(self).players@.len(),
            forall|k: int|
                old(self).creatures.items().len() <= k < final(self).creatures.items().len() ==> (#[trigger] final(self).creatures.items()[k]).alignment != Alignment::Monsters
                    && final(self).creatures.ids()[k] > old(self).creatures.counter() && final(self).creatures.items()[k].health.0 > 0
                    && !final(self).creatures.items()[k].is_building,
            forall|k: int|
                old(self).creatures.items().len() <= k < final(self).creatures.items().len() ==> #[trigger] final(self).entered(
                    *old(self),
                    k,
                ),
    {
        let pvp = self.gamemode == GameMode::PvP;
        let n = self.players.len();
        let ghost n0 = self.creatures.items().len() as int;
        let mut i: usize = 0;
        assert(self.creatures.items().subrange(0, n0) =~= self.creatures.items());
        assert(self.creatures.ids().subrange(0, n0) =~= self.creatures.ids());
        while i < n
            invariant
                old(self).wf(),
                self.wf(),
                i <= n,
                n == old(self).players@.len(),
                n0 == old(self).creatures.items().len(),
                old(self).creatures.counter() + n <= usize::MAX,
                pvp == (old(self).gamemode == GameMode::PvP),
                *self == (World { creatures: self.creatures, players: self.players, ..*old(self) }),
                self.players@.len() == n,
                forall|k: int| i <= k < n ==> #[trigger] self.players@[k] == old(self).players@[k],
                forall|k: int|
                    0 <= k < i ==> {
                        let before = old(self).players@[k];
                        let after = #[trigger] self.players@[k];
                        &&& after.0 == before.0
                        &&& after.1 == (Player { plan: None, body: after.1.body, ..before.1 })
                        &&& self.creatures.contains(after.1.body)
                        &&& (old(self).creatures.contains(before.1.body) ==> after.1.body == before.1.body)
                        &&& (!old(self).creatures.contains(before.1.body) ==> after.1.body > old(self).creatures.counter()
                            && self.creatures.value(after.1.body).is_new_player(
                            before.0,
                            before.1.sprite,
                            old(self).spawnpoint,
                            pvp,
                        ))
                    },
                self.creatures.items().len() >= n0,
                self.creatures.items().subrange(0, n0) == old(self).creatures.items(),
                self.creatures.ids().subrange(0, n0) == old(self).creatures.ids(),
                old(self).creatures.counter() <= self.creatures.counter() <= old(self).creatures.counter() + i,
                forall|k: int|
                    n0 <= k < self.creatures.items().len() ==> (#[trigger] self.creatures.items()[k]).alignment != Alignment::Monsters
                        && self.creatures.ids()[k] > old(self).creatures.counter() && self.creatures.items()[k].health.0 > 0
                        && !self.creatures.items()[k].is_building,
                forall|k: int| n0 <= k < self.creatures.items().len() ==> #[trigger] self.entered(*old(self), k),
            decreases n - i,
        {
            let ghost before = *self;
            let (id, player) = self.players[i];
            let mut body = player.body;
            if !self.creatures.contains_key(&body) {
                let fresh = Creature::new_player(id, player.sprite, self.spawnpoint, pvp);
                proof {
                    fresh.lemma_new_player_wf(id, player.sprite, self.spawnpoint, pvp);
                }
                body = self.creatures.insert(fresh);
                proof {
                    let last = before.creatures.items().len() as int;
                    assert(self.creatures.ids()[last] == body);
                    self.creatures.lemma_place(last);
                    assert(self.creatures.items().subrange(0, n0) =~= before.creatures.items().subrange(0, n0));
                    assert(self.creatures.ids().subrange(0, n0) =~= before.creatures.ids().subrange(0, n0));
                    if old(self).creatures.contains(player.body) {
                        let w = old(self).creatures.ids().index_of(player.body);
                        assert(old(self).creatures.ids()[w] == player.body);
                        assert(before.creatures.ids().subrange(0, n0)[w] == player.body);
                        assert(before.creatures.ids()[w] == player.body);
                    }
                }
            } else {
                proof {
                    let w = self.creatures.ids().index_of(player.body);
                    assert(self.creatures.ids()[w] == player.body);
                    assert(old(self).players@[i as int].1.body <= old(self).creatures.counter());
                    if w < n0 {
                        assert(self.creatures.ids().subrange(0, n0)[w] == player.body);
                        assert(old(self).creatures.ids()[w] == player.body);
                    } else {
                        assert(self.creatures.items()[w].alignment != Alignment::Monsters && self.creatures.ids()[w] > old(self).creatures.counter() && self.creatures.items()[w].health.0 > 0 && !self.creatures.items()[w].is_building);
                    }
                    assert(old(self).creatures.contains(player.body));
                }
            }
            self.players[i].1.body = body;
            self.players[i].1.plan = None;
            proof {
                assert forall|k: int|
                    0 <= k < self.creatures.items().len() implies
                    (#[trigger] self.creatures.items()[k]).wf() && self.ground.contains(self.creatures.items()[k].pos) by {
                    if k < before.creatures.items().len() {
                        assert(self.creatures.items()[k] == before.creatures.items()[k]);
                    }
                }
                assert forall|a: int, b: int|
                    0 <= a < b < self.players@.len() implies
                    (#[trigger] self.players@[a]).0 != (#[trigger] self.players@[b]).0 by {
                    assert(before.players@[a].0 != before.players@[b].0);
                }
                assert(self.players@[i as int].0 == id);
                assert(self.players@[i as int].1 == (Player { plan: None, body, ..player }));
                assert(self.creatures.contains(body));
                if !old(self).creatures.contains(player.body) {
                    let last = before.creatures.items().len() as int;
                    assert(self.creatures.value(body) == self.creatures.items()[last]);
                }
                assert forall|k: int|
                    0 <= k < self.players@.len() implies
                    (#[trigger] self.players@[k]).1.body <= self.creatures.counter() by {
                    if k != i {
                        assert(self.players@[k] == before.players@[k]);
                    }
                }
                assert forall|k: int| 0 <= k < i implies self.creatures.contains((#[trigger] self.players@[k]).1.body) && (!old(self).creatures.contains(old(self).players@[k].1.body) ==> self.creatures.value(self.players@[k].1.body).is_new_player(
                    old(self).players@[k].0,
                    old(self).players@[k].1.sprite,
                    old(self).spawnpoint,
                    pvp,
                )) by {
                    let key = before.players@[k].1.body;
                    assert(self.players@[k] == before.players@[k]);
                    assert(before.creatures.contains(key));
                    let w = before.creatures.ids().index_of(key);
                    assert(before.creatures.ids()[w] == key);
                    assert(self.creatures.ids()[w] == key);
                    self.creatures.lemma_place(w);
                    before.creatures.lemma_place(w);
                    assert(self.creatures.items()[w] == before.creatures.items()[w]);
                }
                assert forall|k: int| n0 <= k < self.creatures.items().len() implies #[trigger] self.entered(*old(self), k) by {
                    if k < before.creatures.items().len() {
                        assert(before.entered(*old(self), k));
                        let j = choose|j: int|
                            0 <= j < before.players@.len() && (#[trigger] before.players@[j]).1.body == before.creatures.ids()[k]
                                && old(self).players@[j].1.body != before.creatures.ids()[k];
                        assert(before.creatures.items()[k].health.0 > 0 && before.creatures.ids()[k] > old(self).creatures.counter());
                        assert(old(self).players@[i as int].1.body <= old(self).creatures.counter());
                        assert(self.players@[j] == before.players@[j]);
                        assert(self.creatures.ids()[k] == before.creatures.ids()[k]);
                    } else {
                        assert(self.players@[i as int].1.body == self.creatures.ids()[k]);
                        assert(old(self).players@[i as int].1.body <= old(self).creatures.counter());
                    }
                }
            }
            i += 1;
        }
    }
}

impl World {
    /// Whether a new wave is due: the mode has waves, no monster is
    /// left in the world and none waits to enter it.
    pub open spec fn wave_due(self) -> bool {
        self.gamemode != GameMode::PvP && !self.spec_has_monsters() && self.to_spawn@.len() == 0
    }

    /// The monsters of wave `wave` as they enter in this game mode.
    pub open spec fn wave_of(gamemode: GameMode, wave: int) -> Seq<CreatureType> {
        spec_mode_substitute(gamemode, spec_wave_composition(wave))
    }

    /// Begins the next wave where one is due: its monsters wait to
    /// enter, and the round pauses for 25 ticks.
    pub fn start_wave(&mut self)
        requires
            old(self).wf(),
            old(self).wave + 5 <= usize::MAX,
        ensures
            final(self).wf(),
            *final(self) == (World {
                wave: final(self).wave,
                round_state: final(self).round_state,
                to_spawn: final(self).to_spawn,
                ..*old(self)
            }),
            old(self).wave_due() ==> final(self).wave == old(self).wave + 1 && final(self).round_state
                == RoundState::Paused(25) && final(self).to_spawn@ == World::wave_of(
                old(self).gamemode,
                old(self).wave + 1,
            ),
            !old(self).wave_due() ==> final(self).wave == old(self).wave && final(self).round_state == old(self).round_state && final(self).to_spawn@ == old(self).to_spawn@,
            old(self).wave_due() ==> crate::waves::all_monsters(final(self).to_spawn@),
    {
        proof {
            crate::waves::lemma_wave_of_monsters(self.wave + 1);
            crate::waves::lemma_substitute_monsters(self.gamemode, spec_wave_composition(self.wave + 1));
        }
        if self.gamemode != GameMode::PvP && !self.has_monsters() && self.to_spawn.len() == 0 {
            self.wave += 1;
            self.round_state = RoundState::Paused(25);
            let composition = wave_composition(self.wave);
            self.to_spawn = mode_substitute(self.gamemode, &composition);
        }
    }

    /// Counts down a pause; and while there is none, lets the monster
    /// that waits longest enter the world in every fifth tick, on one of
    /// the cells where monsters spawn.
    pub fn release_monster(&mut self)
        requires
            old(self).wf(),
            old(self).creatures.counter() < usize::MAX,
        ensures
            final(self).wf(),
            *final(self) == (World {
                round_state: final(self).round_state,
                to_spawn: final(self).to_spawn,
                creatures: final(self).creatures,
                dice: final(self).dice,
                ..*old(self)
            }),
            final(self).round_state == old(self).round_state.spec_unpause(),
            final(self).creatures.counter() <= old(self).creatures.counter() + 1,
            final(self).creatures.counter() >= old(self).creatures.counter(),
            if !(old(self).round_state is Paused) && old(self).time.0 % 5 == 0 && old(self).to_spawn@.len() > 0 {
                &&& final(self).to_spawn@ == old(self).to_spawn@.drop_first()
                &&& final(self).creatures.ids() == old(self).creatures.ids().push((old(self).creatures.counter() + 1) as usize)
                &&& final(self).creatures.items().len() == old(self).creatures.items().len() + 1
                &&& final(self).creatures.items().drop_last() == old(self).creatures.items()
                &&& final(self).creatures.items().last().health.0 > 0
                &&& (final(self).creatures.items().last().is_building <==> old(self).to_spawn@[0] is Pillar)
                &&& exists|i: int|
                    0 <= i < old(self).monsterspawn@.len() && final(self).creatures.items().last().is_new(
                        old(self).to_spawn@[0],
                        #[trigger] old(self).monsterspawn@[i],
                    )
            } else {
                final(self).to_spawn@ == old(self).to_spawn@ && final(self).creatures == old(self).creatures
            },
    {
        match self.round_state {
            RoundState::Paused(_) => {
                self.round_state = self.round_state.unpause();
            },
            _ => {
                if self.time.0 % 5 == 0 && self.to_spawn.len() > 0 {
                    let typ = self.to_spawn.remove(0);
                    let at = self.dice.index(self.monsterspawn.len());
                    let pos = self.monsterspawn[at];
                    let monster = Creature::create_creature(typ, pos, &mut self.dice);
                    proof {
                        monster.lemma_new_wf(typ, pos);
                        assert(self.ground.contains(self.monsterspawn@[at as int]));
                    }
                    let ghost before = self.creatures;
                    self.creatures.insert(monster);
                    proof {
                        assert(self.to_spawn@ =~= old(self).to_spawn@.drop_first());
                        assert(self.creatures.items().drop_last() =~= before.items());
                        assert(self.creatures.items().last() == monster);
                        assert forall|k: int|
                            0 <= k < self.creatures.items().len() implies
                            (#[trigger] self.creatures.items()[k]).wf() && self.ground.contains(self.creatures.items()[k].pos) by {
                            if k < before.items().len() {
                                assert(self.creatures.items()[k] == before.items()[k]);
                            }
                        }
                    }
                }
            },
        }
    }

    /// Whether an item may have dropped on `p`: a creature that was no
    /// player of the team died there.
    pub open spec fn may_drop(dead: Seq<Creature>, p: Pos) -> bool {
        exists|k: int| 0 <= k < dead.len() && (#[trigger] dead[k]).pos == p && dead[k].alignment != Alignment::Players
    }

    /// The number of items that drops fill the world up to: one more
    /// than there are players.
    pub open spec fn item_limit(self) -> int {
        self.players@.len() as int + 1
    }

    /// The items and their number after the first `k` of the dead have
    /// had their turn to drop one: each one that was no player of the
    /// team drops health on its cell if its roll is 0 and the world holds
    /// fewer items than `limit`.
    pub open spec fn dropped(
        items: (Map<Pos, Item>, int),
        dead: Seq<Creature>,
        rolls: Seq<i64>,
        limit: int,
        k: int,
    ) -> (Map<Pos, Item>, int)
        decreases k,
    {
        if k <= 0 {
            items
        } else {
            let prev = World::dropped(items, dead, rolls, limit, k - 1);
            let c = dead[k - 1];
            if c.alignment != Alignment::Players && prev.1 < limit && rolls[k - 1] == 0 {
                (
                    prev.0.insert(c.pos, Item::Health),
                    if prev.0.dom().contains(c.pos) {
                        prev.1
                    } else {
                        prev.1 + 1
                    },
                )
            } else {
                prev
            }
        }
    }

    /// What the turn of one of the dead does to the items. One that
    /// was no player of the team, with a roll of 0 and fewer items in the
    /// world than `limit`, leaves health on its cell and nothing else
    /// changed; every other leaves the items as they are.
    pub proof fn lemma_drop(items: (Map<Pos, Item>, int), dead: Seq<Creature>, rolls: Seq<i64>, limit: int, k: int)
        requires
            0 <= k < dead.len(),
        ensures
            ({
                let before = World::dropped(items, dead, rolls, limit, k);
                let after = World::dropped(items, dead, rolls, limit, k + 1);
                if dead[k].alignment != Alignment::Players && before.1 < limit && rolls[k] == 0 {
                    after.0 == before.0.insert(dead[k].pos, Item::Health)
                } else {
                    after == before
                }
            }),
    {
    }

    /// Drops take no item away, add none but health on the cell of one
    /// of the dead that was no player of the team, and add none at all
    /// where the world holds as many items as `limit` or more.
    pub proof fn lemma_drops_keep(items: (Map<Pos, Item>, int), dead: Seq<Creature>, rolls: Seq<i64>, limit: int, k: int)
        requires
            0 <= k <= dead.len(),
        ensures
            ({
                let after = World::dropped(items, dead, rolls, limit, k);
                &&& forall|p: Pos| items.0.dom().contains(p) ==> #[trigger] after.0.dom().contains(p)
                &&& forall|p: Pos|
                    #[trigger] after.0.dom().contains(p) && !items.0.dom().contains(p) ==> after.0[p] == Item::Health
                        && World::may_drop(dead, p)
                &&& (items.1 >= limit ==> after == items)
                &&& after.1 >= items.1
            }),
        decreases k,
    {
        if k > 0 {
            World::lemma_drops_keep(items, dead, rolls, limit, k - 1);
            let before = World::dropped(items, dead, rolls, limit, k - 1);
            let after = World::dropped(items, dead, rolls, limit, k);
            assert forall|p: Pos|
                #[trigger] after.0.dom().contains(p) && !items.0.dom().contains(p) implies after.0[p] == Item::Health
                    && World::may_drop(dead, p) by {
                if !before.0.dom().contains(p) {
                    assert(dead[k - 1].pos == p && dead[k - 1].alignment != Alignment::Players);
                }
            }
        }
    }

    /// Lets the dead drop items with the rolls given, see `dropped`.
    pub fn drop_items_with(&mut self, dead: &Vec<Creature>, rolls: &Vec<i64>)
        requires
            old(self).wf(),
            old(self).players@.len() < usize::MAX,
            rolls@.len() == dead@.len(),
        ensures
            final(self).wf(),
            *final(self) == (World { items: final(self).items, ..*old(self) }),
            (final(self).items.to_map(), final(self).items.keys().len() as int) == World::dropped(
                (old(self).items.to_map(), old(self).items.keys().len() as int),
                dead@,
                rolls@,
                old(self).item_limit(),
                dead@.len() as int,
            ),
            forall|p: Pos|
                #[trigger] final(self).items.lookup(p) == old(self).items.lookup(p) || (final(self).items.lookup(p)
                    == Some(Item::Health) && World::may_drop(dead@, p)),
            final(self).items.keys().len() <= old(self).items.keys().len() || final(self).items.keys().len()
                <= old(self).item_limit(),
    {
        let nplayers = self.players.len();
        let mut i: usize = 0;
        while i < dead.len()
            invariant
                i <= dead@.len(),
                rolls@.len() == dead@.len(),
                old(self).wf(),
                nplayers + 1 == old(self).item_limit(),
                nplayers < usize::MAX,
                *self == (World { items: self.items, ..*old(self) }),
                self.items.wf(),
                (self.items.to_map(), self.items.keys().len() as int) == World::dropped(
                    (old(self).items.to_map(), old(self).items.keys().len() as int),
                    dead@,
                    rolls@,
                    old(self).item_limit(),
                    i as int,
                ),
                forall|p: Pos|
                    #[trigger] self.items.lookup(p) == old(self).items.lookup(p) || (self.items.lookup(p) == Some(
                        Item::Health,
                    ) && World::may_drop(dead@, p)),
                self.items.keys().len() <= old(self).items.keys().len() || self.items.keys().len() <= old(self).item_limit(),
            decreases dead@.len() - i,
        {
            let creature = &dead[i];
            if creature.alignment != Alignment::Players && self.items.len() < nplayers + 1 && rolls[i] == 0 {
                let ghost before = self.items;
                self.items.insert(creature.pos, Item::Health);
                proof {
                    assert(World::may_drop(dead@, dead@[i as int].pos));
                    assert forall|p: Pos|
                        #[trigger] self.items.lookup(p) == old(self).items.lookup(p) || (self.items.lookup(p) == Some(Item::Health) && World::may_drop(dead@, p)) by {
                        if p != creature.pos {
                            assert(self.items.lookup(p) == before.lookup(p));
                        }
                    }
                    assert(self.items.to_map() =~= before.to_map().insert(creature.pos, Item::Health)) by {
                        assert forall|p: Pos| self.items.to_map().dom().contains(p) == before.to_map().insert(creature.pos, Item::Health).dom().contains(p) by {
                            if p != creature.pos {
                                assert(self.items.lookup(p) == before.lookup(p));
                            }
                        }
                        assert forall|p: Pos|
                            self.items.to_map().dom().contains(p) implies
                            self.items.to_map()[p] == before.to_map().insert(creature.pos, Item::Health)[p] by {
                            if p != creature.pos {
                                assert(self.items.lookup(p) == before.lookup(p));
                            }
                        }
                    }
                    assert(before.to_map().dom().contains(creature.pos) == before.contains(creature.pos));
                }
            }
            i += 1;
        }
    }

    /// Lets the dead drop items: each one that was no player of the team
    /// drops health on its cell in one case of ten, as long as the world
    /// holds fewer items than its limit. See `drop_items_with`.
    pub fn drop_items(&mut self, dead: &Vec<Creature>)
        requires
            old(self).wf(),
            old(self).players@.len() < usize::MAX,
        ensures
            final(self).wf(),
            *final(self) == (World { items: final(self).items, dice: final(self).dice, ..*old(self) }),
            exists|rolls: Seq<i64>|
                rolls.len() == dead@.len() && (final(self).items.to_map(), final(self).items.keys().len() as int)
                    == #[trigger] World::dropped(
                    (old(self).items.to_map(), old(self).items.keys().len() as int),
                    dead@,
                    rolls,
                    old(self).item_limit(),
                    dead@.len() as int,
                ),
            forall|p: Pos|
                #[trigger] final(self).items.lookup(p) == old(self).items.lookup(p) || (final(self).items.lookup(p)
                    == Some(Item::Health) && World::may_drop(dead@, p)),
            final(self).items.keys().len() <= old(self).items.keys().len() || final(self).items.keys().len()
                <= old(self).item_limit(),
    {
        let mut rolls: Vec<i64> = Vec::new();
        let mut i: usize = 0;
        while i < dead.len()
            invariant
                i <= dead@.len(),
                rolls@.len() == i,
                *self == (World { dice: self.dice, ..*old(self) }),
            decreases dead@.len() - i,
        {
            rolls.push(self.dice.roll(0, 9));
            i += 1;
        }
        let ghost rolled = *self;
        self.drop_items_with(dead, &rolls);
        proof {
            assert((self.items.to_map(), self.items.keys().len() as int) == World::dropped(
                (old(self).items.to_map(), old(self).items.keys().len() as int),
                dead@,
                rolls@,
                old(self).item_limit(),
                dead@.len() as int,
            ));
        }
    }

    /// The fourth part of a tick: players without a body get one, a
    /// wave begins where it is due, a pause is counted down or a monster
    /// enters, and the dead drop items.
    pub fn spawn(&mut self, dead: Vec<Creature>)
        requires
            old(self).wf(),
            old(self).wave + 5 <= usize::MAX,
            old(self).creatures.counter() + old(self).players@.len() + 1 <= usize::MAX,
        ensures
            final(self).wf(),
            *final(self) == (World {
                creatures: final(self).creatures,
                players: final(self).players,
                wave: final(self).wave,
                round_state: final(self).round_state,
                to_spawn: final(self).to_spawn,
                items: final(self).items,
                dice: final(self).dice,
                ..*old(self)
            }),
            // the players
            final(self).players@.len() == old(self).players@.len(),
            forall|k: int|
                0 <= k < old(self).players@.len() ==> {
                    let before = old(self).players@[k];
                    let after = #[trigger] final(self).players@[k];
                    &&& after.0 == before.0
                    &&& after.1 == (Player { plan: None, body: after.1.body, ..before.1 })
                    &&& final(self).creatures.contains(after.1.body)
                    &&& (old(self).creatures.contains(before.1.body) ==> after.1.body == before.1.body)
                    &&& (!old(self).creatures.contains(before.1.body) ==> after.1.body > old(self).creatures.counter()
                        && final(self).creatures.value(after.1.body).is_new_player(
                        before.0,
                        before.1.sprite,
                        old(self).spawnpoint,
                        old(self).gamemode == GameMode::PvP,
                    ))
                },
            // the creatures
            old(self).creatures.counter() <= final(self).creatures.counter() <= old(self).creatures.counter() + old(self).players@.len() + 1,
            final(self).creatures.items().len() >= old(self).creatures.items().len(),
            final(self).creatures.items().subrange(0, old(self).creatures.items().len() as int) == old(self).creatures.items(),
            final(self).creatures.ids().subrange(0, old(self).creatures.ids().len() as int) == old(self).creatures.ids(),
            forall|k: int|
                old(self).creatures.items().len() <= k < final(self).creatures.items().len() ==> #[trigger] final(self).creatures.ids()[k]
                    > old(self).creatures.counter() && final(self).creatures.items()[k].health.0 > 0,
            forall|k: int|
                old(self).creatures.items().len() <= k < final(self).creatures.items().len() ==> #[trigger] final(self).entered(
                    *old(self),
                    k,
                ),
            (forall|i: int| 0 <= i < old(self).to_spawn@.len() ==> !((#[trigger] old(self).to_spawn@[i]) is Pillar))
                ==> (forall|i: int| 0 <= i < final(self).to_spawn@.len() ==> !((#[trigger] final(self).to_spawn@[i]) is Pillar))
                && (forall|k: int|
                old(self).creatures.items().len() <= k < final(self).creatures.items().len() ==> !(#[trigger] final(self).creatures.items()[k]).is_building),
            // the wave
            (final(self).wave == old(self).wave + 1) <==> old(self).wave_due(),
            (final(self).wave == old(self).wave + 1) <==> (old(self).gamemode != GameMode::PvP && old(self).to_spawn@.len()
                == 0 && !final(self).spec_has_monsters()),
            final(self).wave == old(self).wave + 1 ==> final(self).round_state == RoundState::Paused(24) && final(self).to_spawn@ == World::wave_of(old(self).gamemode, old(self).wave + 1),
            final(self).wave != old(self).wave + 1 ==> final(self).wave == old(self).wave && final(self).round_state
                == old(self).round_state.spec_unpause() && final(self).to_spawn@ == (if !(old(self).round_state is Paused)
                && old(self).time.0 % 5 == 0 && old(self).to_spawn@.len() > 0 {
                old(self).to_spawn@.drop_first()
            } else {
                old(self).to_spawn@
            }),
            final(self).to_spawn@.len() < old(self).to_spawn@.len() ==> final(self).creatures.items().len() > 0 && final(self).creatures.ids().last()
                > old(self).creatures.counter() && exists|i: int|
                0 <= i < old(self).monsterspawn@.len() && final(self).creatures.items().last().is_new(
                    old(self).to_spawn@[0],
                    #[trigger] old(self).monsterspawn@[i],
                ),
            // the items
            forall|p: Pos|
                #[trigger] final(self).items.lookup(p) == old(self).items.lookup(p) || (final(self).items.lookup(p)
                    == Some(Item::Health) && World::may_drop(dead@, p)),
            final(self).items.keys().len() <= old(self).items.keys().len() || final(self).items.keys().len()
                <= old(self).item_limit(),
            exists|rolls: Seq<i64>|
                rolls.len() == dead@.len() && (final(self).items.to_map(), final(self).items.keys().len() as int)
                    == #[trigger] World::dropped(
                    (old(self).items.to_map(), old(self).items.keys().len() as int),
                    dead@,
                    rolls,
                    old(self).item_limit(),
                    dead@.len() as int,
                ),
    {
        self.respawn_players();
        let ghost respawned = *self;
        proof {
            respawned.lemma_no_new_monsters(*old(self));
        }
        self.start_wave();
        let ghost started = *self;
        self.release_monster();
        let ghost released = *self;
        self.drop_items(&dead);
        proof {
            let rolls = choose|rolls: Seq<i64>|
                rolls.len() == dead@.len() && (self.items.to_map(), self.items.keys().len() as int) == #[trigger] World::dropped(
                    (released.items.to_map(), released.items.keys().len() as int),
                    dead@,
                    rolls,
                    released.item_limit(),
                    dead@.len() as int,
                );
            assert(released.items == old(self).items);
            assert(released.item_limit() == old(self).item_limit());
            assert((self.items.to_map(), self.items.keys().len() as int) == World::dropped(
                (old(self).items.to_map(), old(self).items.keys().len() as int),
                dead@,
                rolls,
                old(self).item_limit(),
                dead@.len() as int,
            ));
        }
        proof {
            self.lemma_spawned(*old(self), respawned);
            assert forall|k: int|
                0 <= k < old(self).players@.len() implies
                self.creatures.contains((#[trigger] self.players@[k]).1.body) && self.creatures.value(self.players@[k].1.body) == respawned.creatures.value(self.players@[k].1.body) by {
                let key = respawned.players@[k].1.body;
                assert(respawned.creatures.contains(key));
                let w = respawned.creatures.ids().index_of(key);
                assert(respawned.creatures.ids()[w] == key);
                assert(self.creatures.ids()[w] == key);
                respawned.creatures.lemma_place(w);
                self.creatures.lemma_place(w);
            }
            if forall|i: int| 0 <= i < old(self).to_spawn@.len() ==> !((#[trigger] old(self).to_spawn@[i]) is Pillar) {
                assert forall|i: int|
                    0 <= i < self.to_spawn@.len() implies
                    !((#[trigger] self.to_spawn@[i]) is Pillar) by {
                    if started.wave == old(self).wave + 1 {
                        assert(crate::waves::all_monsters(started.to_spawn@));
                    } else if self.to_spawn@ != old(self).to_spawn@ {
                        assert(self.to_spawn@[i] == old(self).to_spawn@[i + 1]);
                    }
                }
                assert forall|k: int|
                    old(self).creatures.items().len() <= k < self.creatures.items().len() implies
                    !(#[trigger] self.creatures.items()[k]).is_building by {
                    if k < respawned.creatures.items().len() {
                        assert(!respawned.creatures.items()[k].is_building);
                    } else {
                        assert(self.creatures.items()[k] == released.creatures.items().last());
                        assert(started.to_spawn@ == old(self).to_spawn@);
                    }
                }
            }
            if started.wave != old(self).wave + 1 && old(self).gamemode != GameMode::PvP && old(self).to_spawn@.len() == 0 {
                assert(respawned.spec_has_monsters());
                let w = choose|k: int| 0 <= k < respawned.creatures.items().len() && (#[trigger] respawned.creatures.items()[k]).alignment == Alignment::Monsters;
                assert(self.creatures.items()[w] == respawned.creatures.items()[w]);
            }
        }
    }

    /// The creatures of the world after those of `respawned`, in which
    /// the players without a body in `before` have got one, were joined by
    /// at most one more, and only where fewer wait to enter than did.
    proof fn lemma_spawned(self, before: World, respawned: World)
        requires
            before.wf(),
            respawned.creatures.wf(),
            respawned.creatures.items().len() >= before.creatures.items().len(),
            respawned.creatures.items().subrange(0, before.creatures.items().len() as int) == before.creatures.items(),
            respawned.creatures.ids().subrange(0, before.creatures.ids().len() as int) == before.creatures.ids(),
            before.creatures.counter() <= respawned.creatures.counter() < usize::MAX,
            forall|k: int|
                before.creatures.items().len() <= k < respawned.creatures.items().len() ==> (#[trigger] respawned.creatures.items()[k]).alignment != Alignment::Monsters
                    && respawned.creatures.ids()[k] > before.creatures.counter() && respawned.creatures.items()[k].health.0 > 0
                    && !respawned.creatures.items()[k].is_building,
            forall|k: int|
                before.creatures.items().len() <= k < respawned.creatures.items().len() ==> #[trigger] respawned.entered(before, k),
            respawned.to_spawn@ == before.to_spawn@,
            self.players == respawned.players,
            (self.creatures == respawned.creatures && self.to_spawn@.len() >= before.to_spawn@.len()) || ({
                &&& self.to_spawn@.len() < before.to_spawn@.len()
                &&& self.creatures.ids() == respawned.creatures.ids().push((respawned.creatures.counter() + 1) as usize)
                &&& self.creatures.items().len() == respawned.creatures.items().len() + 1
                &&& self.creatures.items().drop_last() == respawned.creatures.items()
                &&& self.creatures.items().last().health.0 > 0
            }),
        ensures
            self.creatures.items().len() >= respawned.creatures.items().len(),
            forall|k: int|
                0 <= k < respawned.creatures.items().len() ==> #[trigger] self.creatures.items()[k] == respawned.creatures.items()[k],
            forall|k: int| 0 <= k < respawned.creatures.ids().len() ==> #[trigger] self.creatures.ids()[k] == respawned.creatures.ids()[k],
            self.creatures.items().subrange(0, before.creatures.items().len() as int) == before.creatures.items(),
            self.creatures.ids().subrange(0, before.creatures.ids().len() as int) == before.creatures.ids(),
            forall|k: int|
                before.creatures.items().len() <= k < self.creatures.items().len() ==> #[trigger] self.creatures.ids()[k]
                    > before.creatures.counter() && self.creatures.items()[k].health.0 > 0,
            forall|k: int| before.creatures.items().len() <= k < self.creatures.items().len() ==> #[trigger] self.entered(before, k),
            self.to_spawn@.len() < before.to_spawn@.len() ==> self.creatures.items().len() > 0 && self.creatures.ids().last()
                > before.creatures.counter(),
    {
        let n0 = before.creatures.items().len() as int;
        let n1 = respawned.creatures.items().len() as int;
        assert forall|k: int| 0 <= k < n1 implies #[trigger] self.creatures.items()[k] == respawned.creatures.items()[k] by {
            if self.creatures != respawned.creatures {
                assert(self.creatures.items().drop_last()[k] == self.creatures.items()[k]);
            }
        }
        assert(self.creatures.items().subrange(0, n0) =~= before.creatures.items()) by {
            assert forall|k: int| 0 <= k < n0 implies self.creatures.items()[k] == before.creatures.items()[k] by {
                assert(respawned.creatures.items().subrange(0, n0)[k] == respawned.creatures.items()[k]);
            }
        }
        assert(self.creatures.ids().subrange(0, n0) =~= before.creatures.ids()) by {
            assert forall|k: int| 0 <= k < n0 implies self.creatures.ids()[k] == before.creatures.ids()[k] by {
                assert(respawned.creatures.ids().subrange(0, n0)[k] == respawned.creatures.ids()[k]);
            }
        }
        assert forall|k: int| n0 <= k < self.creatures.items().len() implies #[trigger] self.creatures.ids()[k]
            > before.creatures.counter() && self.creatures.items()[k].health.0 > 0 by {
            if k < n1 {
                assert(respawned.creatures.items()[k].health.0 > 0 && respawned.creatures.ids()[k] > before.creatures.counter());
                assert(self.creatures.items()[k] == respawned.creatures.items()[k]);
            } else {
                assert(self.creatures.items()[k] == self.creatures.items().last());
            }
        }
        assert forall|k: int| n0 <= k < self.creatures.items().len() implies #[trigger] self.entered(before, k) by {
            if k < n1 {
                assert(respawned.entered(before, k));
                let j = choose|j: int|
                    0 <= j < respawned.players@.len() && (#[trigger] respawned.players@[j]).1.body == respawned.creatures.ids()[k]
                        && before.players@[j].1.body != respawned.creatures.ids()[k];
                assert(self.players@[j] == respawned.players@[j]);
                assert(self.creatures.ids()[k] == respawned.creatures.ids()[k]);
            }
        }
    }

    /// The bodies that players get bring no monster into the world.
    pub proof fn lemma_no_new_monsters(self, before: World)
        requires
            self.creatures.items().len() >= before.creatures.items().len(),
            self.creatures.items().subrange(0, before.creatures.items().len() as int) == before.creatures.items(),
            forall|k: int|
                before.creatures.items().len() <= k < self.creatures.items().len() ==> (#[trigger] self.creatures.items()[k]).alignment != Alignment::Monsters,
        ensures
            self.spec_has_monsters() == before.spec_has_monsters(),
    {
        let n0 = before.creatures.items().len() as int;
        if before.spec_has_monsters() {
            let w = choose|k: int| 0 <= k < before.creatures.items().len() && (#[trigger] before.creatures.items()[k]).alignment == Alignment::Monsters;
            assert(self.creatures.items().subrange(0, n0)[w] == self.creatures.items()[w]);
        }
        if self.spec_has_monsters() {
            let w = choose|k: int| 0 <= k < self.creatures.items().len() && (#[trigger] self.creatures.items()[k]).alignment == Alignment::Monsters;
            assert(w < n0);
            assert(self.creatures.items().subrange(0, n0)[w] == self.creatures.items()[w]);
            assert(before.creatures.items()[w].alignment == Alignment::Monsters);
        }
    }
}

} // verus!
