use vstd::prelude::*;
use crate::controls::Control;
use crate::creature::{Alignment, Creature, healed, healed_value, Health, Mind, next_slot, previous_slot};
use crate::dice::Dice;
use crate::distance::is_distance_field;
use crate::grid::Grid;
use crate::holder::Holder;
use crate::item::Item;
use crate::mapgen::size_fits;
use crate::pos::{Direction, GRID_LIMIT, Pos};
use crate::posmap::PosMap;
use crate::tile::Tile;
use crate::timestamp::Duration;
use crate::weapon::{Bullet, SCATTER_LIMIT, Weapon};
use crate::world::{RoundState, sources, World};

verus! {

/// Whether a creature can step from a cell with tile `from` onto one with
/// tile `to`: onto every tile that does not block walking, and onto a gate
/// from sanctuary in full health. There is no stepping off the ground.
pub open spec fn can_enter(from: Option<Tile>, to: Option<Tile>, full_health: bool) -> bool {
    match to {
        Some(tile) => !tile.blocks_walking() || (tile == Tile::Gate && from == Some(Tile::Sanctuary) && full_health),
        None => false,
    }
}

/// By how much a living creature heals in a tick: by 2 on sanctuary,
/// and elsewhere during a pause by 2, or by 20 if it is a building.
pub open spec fn rest(is_building: bool, here: Option<Tile>, paused: bool) -> int {
    if here == Some(Tile::Sanctuary) {
        2
    } else if paused {
        if is_building {
            20
        } else {
            2
        }
    } else {
        0
    }
}

/// The creature after its rest.
pub open spec fn rested(c: Creature, here: Option<Tile>, paused: bool) -> Creature {
    Creature {
        health: Health(healed(c.health.0 as int, c.max_health.0 as int, rest(c.is_building, here, paused)) as i64),
        ..c
    }
}

/// Whether the creature gets to carry out a plan in this tick: it is
/// alive and has no cooldown left.
pub open spec fn is_ready(c: Creature) -> bool {
    c.health.0 > 0 && c.cooldown.0 <= 0
}

/// The cell that a creature with this plan tries to step onto.
pub open spec fn goal(c: Creature, plan: Option<Control>) -> Pos {
    match plan {
        Some(Control::Move(dir)) => c.pos.step(dir),
        _ => c.pos,
    }
}

/// Whether the creature steps onto its goal in this tick: it is ready to
/// move, can enter the tile, and the cell is free.
pub open spec fn steps(c: Creature, plan: Option<Control>, here: Option<Tile>, there: Option<Tile>, free: bool, paused: bool) -> bool {
    &&& is_ready(c)
    &&& plan matches Some(Control::Move(_))
    &&& can_enter(here, there, rested(c, here, paused).health.0 >= c.max_health.0)
    &&& free
}

/// The weapon and the aim with which the creature fires in this tick, if
/// it does: it is ready, plans a shot, has its weapon at hand and does
/// not stand on a tile that blocks walking.
pub open spec fn fires(c: Creature, plan: Option<Control>, here: Option<Tile>) -> Option<(Weapon, Pos)> {
    if is_ready(c) && c.spec_weapon() is Some && (here matches Some(tile) && !tile.blocks_walking()) {
        match plan {
            Some(Control::Shoot(Some(dir))) => Some((c.spec_weapon().unwrap(), dir.vector())),
            Some(Control::Shoot(None)) => Some((c.spec_weapon().unwrap(), c.dir.vector())),
            Some(Control::ShootPrecise(aim)) => Some((c.spec_weapon().unwrap(), aim)),
            _ => None,
        }
    } else {
        None
    }
}

/// The creature after its tick. `here` is the tile it stands on,
/// `there` the tile of its goal, `free` says whether no creature is known
/// on the goal, and `item` is what lies there.
///
/// A dead creature stays as it is. A living one rests; with cooldown
/// left it then only counts that down. Else it carries out its plan: it
/// turns and, where it can, steps, picks up health if a player steers it,
/// and waits its walking cooldown; or it turns where told and waits its
/// weapon's cooldown for a shot; or it ends itself; or it selects a weapon.
pub open spec fn acted(
    c: Creature,
    plan: Option<Control>,
    here: Option<Tile>,
    there: Option<Tile>,
    free: bool,
    item: Option<Item>,
    paused: bool,
) -> Creature {
    if c.health.0 <= 0 {
        c
    } else {
        let h = rested(c, here, paused);
        if h.cooldown.0 > 0 {
            Creature { cooldown: Duration((h.cooldown.0 - 1) as i64), ..h }
        } else {
            match plan {
                Some(Control::Move(dir)) => {
                    let turned = Creature { dir, cooldown: h.walk_cooldown, ..h };
                    if steps(c, plan, here, there, free, paused) {
                        let moved = Creature { pos: h.pos.step(dir), ..turned };
                        if h.mind is Player && item == Some(Item::Health) {
                            Creature { health: moved.max_health, ..moved }
                        } else {
                            moved
                        }
                    } else {
                        turned
                    }
                },
                Some(Control::Shoot(turn)) => {
                    let facing = match turn {
                        Some(dir) => dir,
                        None => h.dir,
                    };
                    match h.spec_weapon() {
                        Some(weapon) => Creature { dir: facing, cooldown: weapon.cooldown, ..h },
                        None => Creature { dir: facing, ..h },
                    }
                },
                Some(Control::ShootPrecise(_)) => match h.spec_weapon() {
                    Some(weapon) => Creature { cooldown: weapon.cooldown, ..h },
                    None => h,
                },
                Some(Control::Suicide) => Creature { health: Health(-1i64), ..h },
                Some(Control::NextWeapon) => Creature {
                    selected_weapon: next_slot(h.weapons@, h.selected_weapon as int, 1) as usize,
                    ..h
                },
                Some(Control::PreviousWeapon) => Creature {
                    selected_weapon: previous_slot(h.weapons@, h.selected_weapon as int, 1) as usize,
                    ..h
                },
                None => h,
            }
        }
    }
}

/// The creatures, the items and the map of taken cells after the tick of
/// the creature at place `k`, which has the key `id`: the creature
/// becomes what `acted` says for what it finds on its goal; where it
/// steps, the map of taken cells leaves its old cell to no one, if `id`
/// had it, and gives its goal to `id`; and where it picks up an item,
/// the item goes.
pub open spec fn marched_one(
    state: (Seq<Creature>, Map<Pos, Item>, Map<Pos, usize>),
    k: int,
    id: usize,
    plan: Option<Control>,
    ground: Grid<Tile>,
    paused: bool,
) -> (Seq<Creature>, Map<Pos, Item>, Map<Pos, usize>) {
    let c = state.0[k];
    let g = goal(c, plan);
    let here = ground.lookup(c.pos);
    let there = ground.lookup(g);
    let free = !state.2.dom().contains(g);
    let item = if state.1.dom().contains(g) {
        Some(state.1[g])
    } else {
        None
    };
    let stepping = steps(c, plan, here, there, free, paused);
    let picking = stepping && c.mind is Player && item == Some(Item::Health);
    (
        state.0.update(k, acted(c, plan, here, there, free, item, paused)),
        if picking {
            state.1.remove(g)
        } else {
            state.1
        },
        if stepping {
            (if state.2.dom().contains(c.pos) && state.2[c.pos] == id {
                state.2.remove(c.pos)
            } else {
                state.2
            }).insert(g, id)
        } else {
            state.2
        },
    )
}

/// Health is for the players. Where a living creature without
/// cooldown moves onto a free cell that it can enter and on which health
/// lies, it comes to stand there. If a player steers it, it has all its
/// health then and the item is gone; if not, its health is as its rest
/// leaves it and the item lies where it lay. All other items and all other
/// creatures stay as they are.
pub proof fn lemma_pick_up(
    state: (Seq<Creature>, Map<Pos, Item>, Map<Pos, usize>),
    k: int,
    id: usize,
    dir: Direction,
    ground: Grid<Tile>,
    paused: bool,
)
    requires
        0 <= k < state.0.len(),
        is_ready(state.0[k]),
        state.1.dom().contains(state.0[k].pos.step(dir)),
        state.1[state.0[k].pos.step(dir)] == Item::Health,
        !state.2.dom().contains(state.0[k].pos.step(dir)),
        can_enter(
            ground.lookup(state.0[k].pos),
            ground.lookup(state.0[k].pos.step(dir)),
            rested(state.0[k], ground.lookup(state.0[k].pos), paused).health.0 >= state.0[k].max_health.0,
        ),
    ensures
        ({
            let c = state.0[k];
            let q = c.pos.step(dir);
            let after = marched_one(state, k, id, Some(Control::Move(dir)), ground, paused);
            &&& after.0.len() == state.0.len()
            &&& after.0[k].pos == q
            &&& forall|j: int| 0 <= j < state.0.len() && j != k ==> after.0[j] == state.0[j]
            &&& forall|p: Pos| p != q ==> after.1.dom().contains(p) == state.1.dom().contains(p)
            &&& forall|p: Pos| p != q && state.1.dom().contains(p) ==> after.1[p] == state.1[p]
            &&& (c.mind is Player ==> after.0[k].health == c.max_health && !after.1.dom().contains(q))
            &&& (!(c.mind is Player) ==> after.0[k].health == rested(c, ground.lookup(c.pos), paused).health && after.1
                == state.1)
        }),
{
}

/// The creatures, the items and the map of taken cells after the ticks
/// of the first `k` creatures, one after the other, each with its plan.
pub open spec fn marched(
    state: (Seq<Creature>, Map<Pos, Item>, Map<Pos, usize>),
    ids: Seq<usize>,
    plans: Seq<Option<Control>>,
    ground: Grid<Tile>,
    paused: bool,
    k: int,
) -> (Seq<Creature>, Map<Pos, Item>, Map<Pos, usize>)
    decreases k,
{
    if k <= 0 {
        state
    } else {
        marched_one(marched(state, ids, plans, ground, paused, k - 1), k - 1, ids[k - 1], plans[k - 1], ground, paused)
    }
}

/// While the first `m` creatures have their ticks, those behind them
/// stay as they are, and a cell that none of the `m` aims at keeps its item
/// and stays free if it was.
pub proof fn lemma_marched_before(
    state: (Seq<Creature>, Map<Pos, Item>, Map<Pos, usize>),
    ids: Seq<usize>,
    plans: Seq<Option<Control>>,
    ground: Grid<Tile>,
    paused: bool,
    m: int,
    q: Pos,
)
    requires
        0 <= m <= state.0.len(),
        forall|j: int| 0 <= j < m ==> goal(#[trigger] state.0[j], plans[j]) != q,
    ensures
        ({
            let now = marched(state, ids, plans, ground, paused, m);
            &&& now.0.len() == state.0.len()
            &&& forall|i: int| m <= i < state.0.len() ==> now.0[i] == state.0[i]
            &&& now.1.dom().contains(q) == state.1.dom().contains(q)
            &&& (state.1.dom().contains(q) ==> now.1[q] == state.1[q])
            &&& (!state.2.dom().contains(q) ==> !now.2.dom().contains(q))
        }),
    decreases m,
{
    if m > 0 {
        lemma_marched_before(state, ids, plans, ground, paused, m - 1, q);
        let prev = marched(state, ids, plans, ground, paused, m - 1);
        assert(prev.0[m - 1] == state.0[m - 1]);
        assert(goal(state.0[m - 1], plans[m - 1]) != q);
    }
}

/// What a creature is after its own tick it still is when the others
/// have had theirs, and an item that is gone does not come back.
pub proof fn lemma_marched_after(
    state: (Seq<Creature>, Map<Pos, Item>, Map<Pos, usize>),
    ids: Seq<usize>,
    plans: Seq<Option<Control>>,
    ground: Grid<Tile>,
    paused: bool,
    k: int,
    m: int,
    q: Pos,
)
    requires
        0 <= k < m <= state.0.len(),
    ensures
        ({
            let then = marched(state, ids, plans, ground, paused, k + 1);
            let now = marched(state, ids, plans, ground, paused, m);
            &&& now.0.len() == state.0.len()
            &&& now.0[k] == then.0[k]
            &&& (!then.1.dom().contains(q) ==> !now.1.dom().contains(q))
        }),
    decreases m,
{
    if m > k + 1 {
        lemma_marched_after(state, ids, plans, ground, paused, k, m - 1, q);
    } else {
        lemma_marched_len(state, ids, plans, ground, paused, m);
    }
}

/// The ticks of the creatures leave as many creatures as there were.
pub proof fn lemma_marched_len(
    state: (Seq<Creature>, Map<Pos, Item>, Map<Pos, usize>),
    ids: Seq<usize>,
    plans: Seq<Option<Control>>,
    ground: Grid<Tile>,
    paused: bool,
    m: int,
)
    requires
        0 <= m <= state.0.len(),
    ensures
        marched(state, ids, plans, ground, paused, m).0.len() == state.0.len(),
    decreases m,
{
    if m > 0 {
        lemma_marched_len(state, ids, plans, ground, paused, m - 1);
    }
}

/// Health is for the player who comes to it first. Take the ticks of
/// all creatures, one after the other. A living creature without
/// cooldown that moves onto a cell which it can enter, on which health
/// lies, on which no creature stands, and at which no creature before it
/// in the order aims, stands there after the ticks of all. If a player
/// steers it, it has all its health from its own tick on and the item is
/// gone; if not, its own tick leaves it the health of its rest.
pub proof fn lemma_pick_up_in_turn(
    state: (Seq<Creature>, Map<Pos, Item>, Map<Pos, usize>),
    ids: Seq<usize>,
    plans: Seq<Option<Control>>,
    ground: Grid<Tile>,
    paused: bool,
    k: int,
    dir: Direction,
)
    requires
        0 <= k < state.0.len(),
        is_ready(state.0[k]),
        plans[k] == Some(Control::Move(dir)),
        state.1.dom().contains(state.0[k].pos.step(dir)),
        state.1[state.0[k].pos.step(dir)] == Item::Health,
        !state.2.dom().contains(state.0[k].pos.step(dir)),
        can_enter(
            ground.lookup(state.0[k].pos),
            ground.lookup(state.0[k].pos.step(dir)),
            rested(state.0[k], ground.lookup(state.0[k].pos), paused).health.0 >= state.0[k].max_health.0,
        ),
        forall|j: int| 0 <= j < k ==> goal(#[trigger] state.0[j], plans[j]) != state.0[k].pos.step(dir),
    ensures
        ({
            let c = state.0[k];
            let q = c.pos.step(dir);
            let end = marched(state, ids, plans, ground, paused, state.0.len() as int);
            &&& end.0.len() == state.0.len()
            &&& end.0[k].pos == q
            &&& (c.mind is Player ==> end.0[k].health == c.max_health && !end.1.dom().contains(q))
            &&& (!(c.mind is Player) ==> end.0[k].health == rested(c, ground.lookup(c.pos), paused).health)
        }),
{
    let q = state.0[k].pos.step(dir);
    lemma_marched_before(state, ids, plans, ground, paused, k, q);
    let found = marched(state, ids, plans, ground, paused, k);
    lemma_pick_up(found, k, ids[k], dir, ground, paused);
    lemma_marched_after(state, ids, plans, ground, paused, k, state.0.len() as int, q);
}

/// The map of taken cells for the first `k` creatures as they stand:
/// each cell with the key of the creature on it, the last one of several.
pub open spec fn spec_snapshot(ids: Seq<usize>, creatures: Seq<Creature>, k: int) -> Map<Pos, usize>
    decreases k,
{
    if k <= 0 {
        Map::empty()
    } else {
        spec_snapshot(ids, creatures, k - 1).insert(creatures[k - 1].pos, ids[k - 1])
    }
}

/// The number of bullets that the first `k` creatures fire with their plans.
pub open spec fn shots_total(creatures: Seq<Creature>, plans: Seq<Option<Control>>, ground: Grid<Tile>, k: int) -> int
    decreases k,
{
    if k <= 0 {
        0
    } else {
        shots_total(creatures, plans, ground, k - 1) + shots(
            creatures[k - 1],
            plans[k - 1],
            ground.lookup(creatures[k - 1].pos),
        )
    }
}

/// Whether `b` is a bullet as creature `c` fires it with this plan.
pub open spec fn turn_fires(c: Creature, plan: Option<Control>, ground: Grid<Tile>, b: Bullet) -> bool {
    match fires(c, plan, ground.lookup(c.pos)) {
        Some((weapon, aim)) => weapon.fired(c.pos, aim, c.alignment, b),
        None => false,
    }
}

/// Whether the bullets are those that the first `k` creatures fire with
/// their plans, creature after creature.
pub open spec fn fired_in_turn(
    creatures: Seq<Creature>,
    plans: Seq<Option<Control>>,
    ground: Grid<Tile>,
    bullets: Seq<Bullet>,
    k: int,
) -> bool {
    forall|t: int, i: int|
        0 <= t < k && shots_total(creatures, plans, ground, t) <= i < shots_total(creatures, plans, ground, t + 1)
            && i < bullets.len() ==> #[trigger] turn_fires(creatures[t], plans[t], ground, bullets[i])
}

/// The bullets fired add up.
pub proof fn lemma_shots_total_grows(creatures: Seq<Creature>, plans: Seq<Option<Control>>, ground: Grid<Tile>, a: int, b: int)
    requires
        0 <= a <= b,
    ensures
        0 <= shots_total(creatures, plans, ground, a) <= shots_total(creatures, plans, ground, b),
    decreases b,
{
    if a < b {
        lemma_shots_total_grows(creatures, plans, ground, a, b - 1);
    } else if a > 0 {
        lemma_shots_total_grows(creatures, plans, ground, a - 1, a - 1);
        lemma_shots_total_grows(creatures, plans, ground, 0, a - 1);
    }
}

/// Whether `b` is a bullet as creature `c` fires it: from its cell, on
/// its side, with its weapon, along some aim.
pub open spec fn shot_by(c: Creature, b: Bullet) -> bool {
    c.spec_weapon() is Some && exists|aim: Pos| #[trigger] c.spec_weapon().unwrap().fired(c.pos, aim, c.alignment, b)
}

/// Whether `b` is a bullet as one of the creatures fires it.
pub open spec fn shot_among(creatures: Seq<Creature>, b: Bullet) -> bool {
    exists|i: int| 0 <= i < creatures.len() && shot_by(#[trigger] creatures[i], b)
}

/// Whether what the map of taken cells says is true: the creature it
/// names for a cell is there.
pub open spec fn exact(occupancy: PosMap<usize>, creatures: Holder<Creature>) -> bool {
    forall|p: Pos| #[trigger]
        occupancy.contains(p) ==> creatures.contains(occupancy.lookup(p).unwrap()) && creatures.value(
            occupancy.lookup(p).unwrap(),
        ).pos == p
}

/// Whether the map of taken cells knows the cell of every creature.
pub open spec fn covers(occupancy: PosMap<usize>, creatures: Seq<Creature>) -> bool {
    forall|k: int| 0 <= k < creatures.len() ==> occupancy.contains((#[trigger] creatures[k]).pos)
}

/// A tick keeps a well-formed creature well formed, and on the ground
/// if it only steps where it can.
pub proof fn lemma_acted_wf(
    c: Creature,
    plan: Option<Control>,
    here: Option<Tile>,
    there: Option<Tile>,
    free: bool,
    item: Option<Item>,
    paused: bool,
)
    requires
        c.wf(),
    ensures
        acted(c, plan, here, there, free, item, paused).wf(),
        acted(c, plan, here, there, free, item, paused).pos == (if steps(c, plan, here, there, free, paused) {
            goal(c, plan)
        } else {
            c.pos
        }),
        acted(c, plan, here, there, free, item, paused).alignment == c.alignment,
        acted(c, plan, here, there, free, item, paused).mind == c.mind,
        acted(c, plan, here, there, free, item, paused).is_building == c.is_building,
        acted(c, plan, here, there, free, item, paused).max_health == c.max_health,
        acted(c, plan, here, there, free, item, paused).weapons == c.weapons,
        acted(c, plan, here, there, free, item, paused).sprite == c.sprite,
{
    let h = rested(c, here, paused);
    let n = c.weapons@.len() as int;
    if n > 0 {
        lemma_slot_in_range(c.weapons@, c.selected_weapon as int, 1);
        if h.spec_weapon() is Some {
            assert(h.weapons@[h.selected_weapon as int].0.wf());
        }
    }
}

/// The slot that comes up next is a slot, or the one that was selected.
pub proof fn lemma_slot_in_range(slots: Seq<(Weapon, bool)>, selected: int, k: int)
    requires
        k >= 1,
        slots.len() > 0,
    ensures
        next_slot(slots, selected, k) == selected || 0 <= next_slot(slots, selected, k) < slots.len(),
        previous_slot(slots, selected, k) == selected || 0 <= previous_slot(slots, selected, k) < slots.len(),
    decreases slots.len() + 1 - k,
{
    if k <= slots.len() {
        lemma_slot_in_range(slots, selected, k + 1);
    }
}

/// The creature with the numbers of its tick written into it, and its
/// selection moved on or back where `rotate` says so.
pub open spec fn settled(c: Creature, health: i64, cooldown: i64, dir: Direction, pos: Pos, rotate: Option<bool>) -> Creature {
    Creature {
        health: Health(health),
        cooldown: Duration(cooldown),
        dir,
        pos,
        selected_weapon: match rotate {
            Some(true) => next_slot(c.weapons@, c.selected_weapon as int, 1) as usize,
            Some(false) => previous_slot(c.weapons@, c.selected_weapon as int, 1) as usize,
            None => c.selected_weapon,
        },
        ..c
    }
}

/// Writes the numbers of its tick into the creature at place `i`.
pub fn settle(
    creatures: &mut Holder<Creature>,
    i: usize,
    health: i64,
    cooldown: i64,
    dir: Direction,
    pos: Pos,
    rotate: Option<bool>,
)
    requires
        old(creatures).wf(),
        i < old(creatures).items().len(),
    ensures
        final(creatures).ids() == old(creatures).ids(),
        final(creatures).counter() == old(creatures).counter(),
        final(creatures).items() == old(creatures).items().update(
            i as int,
            settled(old(creatures).items()[i as int], health, cooldown, dir, pos, rotate),
        ),
{
    let m = creatures.value_at_mut(i);
    m.health = Health(health);
    m.cooldown = Duration(cooldown);
    m.dir = dir;
    m.pos = pos;
    match rotate {
        Some(true) => {
            m.select_next_weapon();
        },
        Some(false) => {
            m.select_previous_weapon();
        },
        None => {},
    }
}

/// Tries the step of creature `id` from `pos` in direction `dir`. Where
/// the creature can enter the tile and the map of taken cells knows no
/// creature there, the map takes note: the goal is now taken by `id`, and
/// the cell left is free if it was `id` that had it. The goal is returned.
pub fn walk(
    ground: &Grid<Tile>,
    occupancy: &mut PosMap<usize>,
    id: usize,
    pos: Pos,
    dir: Direction,
    full_health: bool,
) -> (r: Option<Pos>)
    requires
        ground.wf(),
        ground.contains(pos),
        pos.within(i64::MAX - 1),
        old(occupancy).wf(),
    ensures
        final(occupancy).wf(),
        r == (if can_enter(ground.lookup(pos), ground.lookup(pos.step(dir)), full_health) && !old(occupancy).contains(
            pos.step(dir),
        ) {
            Some(pos.step(dir))
        } else {
            None
        }),
        r matches Some(t) ==> ground.contains(t),
        forall|p: Pos|
            #[trigger] final(occupancy).lookup(p) == (if r is None {
                old(occupancy).lookup(p)
            } else if p == pos.step(dir) {
                Some(id)
            } else if p == pos && old(occupancy).lookup(p) == Some(id) {
                None
            } else {
                old(occupancy).lookup(p)
            }),
{
    let here = *ground.get_unchecked(pos);
    let target = pos + dir;
    let enter = match ground.get(target) {
        Some(tile) => !tile.blocking() || (*tile == Tile::Gate && here == Tile::Sanctuary && full_health),
        None => false,
    };
    if enter && !occupancy.contains_key(target) {
        let known = match occupancy.get(pos) {
            Some(other) => *other == id,
            None => false,
        };
        if known {
            occupancy.remove(pos);
        }
        occupancy.insert(target, id);
        Some(target)
    } else {
        None
    }
}

/// Picks up what lies on `target` if a player steers the creature that
/// comes there, and says whether it was health.
pub fn pick_up(items: &mut PosMap<Item>, target: Pos, steered: bool) -> (found: bool)
    requires
        old(items).wf(),
    ensures
        final(items).wf(),
        found == (steered && old(items).lookup(target) == Some(Item::Health)),
        forall|p: Pos|
            #[trigger] final(items).lookup(p) == (if found && p == target {
                None
            } else {
                old(items).lookup(p)
            }),
{
    if steered {
        let found = match items.get(target) {
            Some(Item::Health) => true,
            None => false,
        };
        if found {
            items.remove(target);
        }
        found
    } else {
        false
    }
}

/// Fires `weapon` from `pos` along `aim`, unless the one who fires
/// stands on a tile that blocks walking: the bullets join the others.
pub fn fire(
    weapon: Weapon,
    here: Tile,
    pos: Pos,
    aim: Pos,
    alignment: Alignment,
    bullets: &mut Vec<Bullet>,
    dice: &mut Dice,
)
    requires
        weapon.wf(),
        aim.within(GRID_LIMIT as int),
        0 <= pos.x <= GRID_LIMIT,
        0 <= pos.y <= GRID_LIMIT,
    ensures
        final(bullets)@.len() == old(bullets)@.len() + (if here.blocks_walking() {
            0int
        } else {
            weapon.nbullets as int
        }),
        final(bullets)@.subrange(0, old(bullets)@.len() as int) == old(bullets)@,
        forall|k: int|
            old(bullets)@.len() <= k < final(bullets)@.len() ==> weapon.fired(pos, aim, alignment, #[trigger] final(bullets)@[k])
                && final(bullets)@[k].wf(),
{
    if !here.blocking() {
        let mut shots = weapon.shoot(pos, aim, alignment, dice);
        let ghost fresh = shots@;
        bullets.append(&mut shots);
        proof {
            assert(bullets@.subrange(0, old(bullets)@.len() as int) =~= old(bullets)@);
            assert forall|k: int|
                old(bullets)@.len() <= k < bullets@.len() implies
                weapon.fired(pos, aim, alignment, #[trigger] bullets@[k]) && bullets@[k].wf() by {
                let b = fresh[k - old(bullets)@.len()];
                assert(bullets@[k] == b);
                assert(weapon.fired(pos, aim, alignment, b));
                assert(b.direction.within(SCATTER_LIMIT as int));
            }
        }
    } else {
        assert(bullets@.subrange(0, old(bullets)@.len() as int) =~= old(bullets)@);
    }
}

/// What a creature sees of the world in its tick.
pub open spec fn acted_in(
    c: Creature,
    plan: Option<Control>,
    ground: Grid<Tile>,
    items: PosMap<Item>,
    occupancy: PosMap<usize>,
    paused: bool,
) -> Creature {
    acted(
        c,
        plan,
        ground.lookup(c.pos),
        ground.lookup(goal(c, plan)),
        !occupancy.contains(goal(c, plan)),
        items.lookup(goal(c, plan)),
        paused,
    )
}

/// Whether the creature steps onto its goal in this tick.
pub open spec fn steps_in(c: Creature, plan: Option<Control>, ground: Grid<Tile>, occupancy: PosMap<usize>, paused: bool) -> bool {
    steps(c, plan, ground.lookup(c.pos), ground.lookup(goal(c, plan)), !occupancy.contains(goal(c, plan)), paused)
}

/// Whether the creature picks up health in this tick: it steps, a
/// player steers it, and health lies on its goal.
pub open spec fn picks_in(
    c: Creature,
    plan: Option<Control>,
    ground: Grid<Tile>,
    items: PosMap<Item>,
    occupancy: PosMap<usize>,
    paused: bool,
) -> bool {
    steps_in(c, plan, ground, occupancy, paused) && c.mind is Player && items.lookup(goal(c, plan)) == Some(Item::Health)
}

/// The number of bullets that the creature fires in this tick.
pub open spec fn shots(c: Creature, plan: Option<Control>, here: Option<Tile>) -> int {
    match fires(c, plan, here) {
        Some((weapon, _)) => weapon.nbullets as int,
        None => 0,
    }
}

/// Lets the creature at place `i` have its tick: it rests, counts down
/// its cooldown or carries out `plan`. The creature becomes what `acted`
/// says. A step is noted in the map of taken cells, an item picked up
/// leaves the world, and the bullets of a shot join the others.
pub fn act(
    creatures: &mut Holder<Creature>,
    i: usize,
    plan: Option<Control>,
    ground: &Grid<Tile>,
    items: &mut PosMap<Item>,
    bullets: &mut Vec<Bullet>,
    occupancy: &mut PosMap<usize>,
    paused: bool,
    dice: &mut Dice,
)
    requires
        old(creatures).wf(),
        i < old(creatures).items().len(),
        old(creatures).items()[i as int].wf(),
        ground.wf(),
        size_fits(ground.spec_size()),
        ground.contains(old(creatures).items()[i as int].pos),
        plan matches Some(control) ==> control.wf(),
        old(items).wf(),
        old(occupancy).wf(),
    ensures
        final(creatures).ids() == old(creatures).ids(),
        final(creatures).counter() == old(creatures).counter(),
        final(creatures).items() == old(creatures).items().update(
            i as int,
            acted_in(old(creatures).items()[i as int], plan, *ground, *old(items), *old(occupancy), paused),
        ),
        final(items).wf(),
        final(occupancy).wf(),
        // the bullets
        final(bullets)@.len() == old(bullets)@.len() + shots(old(creatures).items()[i as int], plan, ground.lookup(old(creatures).items()[i as int].pos)),
        final(bullets)@.subrange(0, old(bullets)@.len() as int) == old(bullets)@,
        forall|k: int|
            old(bullets)@.len() <= k < final(bullets)@.len() ==> (#[trigger] final(bullets)@[k]).wf() && (match fires(
                old(creatures).items()[i as int],
                plan,
                ground.lookup(old(creatures).items()[i as int].pos),
            ) {
                Some((weapon, aim)) => weapon.fired(
                    old(creatures).items()[i as int].pos,
                    aim,
                    old(creatures).items()[i as int].alignment,
                    final(bullets)@[k],
                ),
                None => false,
            }),
        // the items
        forall|p: Pos|
            #[trigger] final(items).lookup(p) == (if picks_in(old(creatures).items()[i as int], plan, *ground, *old(items), *old(occupancy), paused) && p
                == goal(old(creatures).items()[i as int], plan) {
                None
            } else {
                old(items).lookup(p)
            }),
        // the map of taken cells
        forall|p: Pos|
            #[trigger] final(occupancy).lookup(p) == (if !steps_in(old(creatures).items()[i as int], plan, *ground, *old(occupancy), paused) {
                old(occupancy).lookup(p)
            } else if p == goal(old(creatures).items()[i as int], plan) {
                Some(old(creatures).ids()[i as int])
            } else if p == old(creatures).items()[i as int].pos && old(occupancy).lookup(p) == Some(old(creatures).ids()[i as int]) {
                None
            } else {
                old(occupancy).lookup(p)
            }),
{
    let ghost old_c = creatures.items()[i as int];
    let id = creatures.key_at(i);
    let c = creatures.value_at(i);
    if c.is_dead() {
        assert(creatures.items() =~= creatures.items().update(i as int, old_c));
        assert(bullets@.subrange(0, bullets@.len() as int) =~= bullets@);
        return ;
    }
    let pos = c.pos;
    let alignment = c.alignment;
    let walk_cooldown = c.walk_cooldown;
    let max_health = c.max_health;
    let steered = c.is_player();
    let weapon: Option<Weapon> = match c.weapon() {
        Some(w) => Some(*w),
        None => None,
    };
    proof {
        if old_c.spec_weapon() is Some {
            assert(old_c.weapons@[old_c.selected_weapon as int].0.wf());
        }
    }
    let here = *ground.get_unchecked(pos);
    let amount: i64 = if here == Tile::Sanctuary {
        2
    } else if paused {
        if c.is_building {
            20
        } else {
            2
        }
    } else {
        0
    };
    let mut health = healed_value(c.health.0, c.max_health.0, amount);
    let mut cooldown = c.cooldown.0;
    let mut dir = c.dir;
    let mut new_pos = pos;
    let mut rotate: Option<bool> = None;
    assert(bullets@.subrange(0, bullets@.len() as int) =~= bullets@);
    if cooldown > 0 {
        cooldown = cooldown - 1;
    } else {
        match plan {
            Some(Control::Move(direction)) => {
                dir = direction;
                cooldown = walk_cooldown.0;
                match walk(ground, occupancy, id, pos, direction, health >= max_health.0) {
                    Some(target) => {
                        new_pos = target;
                        if pick_up(items, target, steered) {
                            health = max_health.0;
                        }
                    },
                    None => {},
                }
            },
            Some(Control::Shoot(turn)) => {
                match turn {
                    Some(direction) => {
                        dir = direction;
                    },
                    None => {},
                }
                match weapon {
                    Some(w) => {
                        fire(w, here, pos, dir.to_position(), alignment, bullets, dice);
                        cooldown = w.cooldown.0;
                    },
                    None => {},
                }
            },
            Some(Control::ShootPrecise(aim)) => {
                match weapon {
                    Some(w) => {
                        fire(w, here, pos, aim, alignment, bullets, dice);
                        cooldown = w.cooldown.0;
                    },
                    None => {},
                }
            },
            Some(Control::Suicide) => {
                health = -1;
            },
            Some(Control::NextWeapon) => {
                rotate = Some(true);
            },
            Some(Control::PreviousWeapon) => {
                rotate = Some(false);
            },
            None => {},
        }
    }
    settle(creatures, i, health, cooldown, dir, new_pos, rotate);
    proof {
        let new_c = settled(old_c, health, cooldown, dir, new_pos, rotate);
        if old_c.weapons@.len() > 0 {
            lemma_slot_in_range(old_c.weapons@, old_c.selected_weapon as int, 1);
        }
        assert(new_c == acted_in(old_c, plan, *ground, *old(items), *old(occupancy), paused));
    }
}

/// The tick of one creature more carries the march on by one.
pub proof fn lemma_march_extends(
    creatures: Seq<Creature>,
    creatures_after: Seq<Creature>,
    items: PosMap<Item>,
    items_after: PosMap<Item>,
    taken: PosMap<usize>,
    taken_after: PosMap<usize>,
    start: (Seq<Creature>, Map<Pos, Item>, Map<Pos, usize>),
    ids: Seq<usize>,
    plans: Seq<Option<Control>>,
    ground: Grid<Tile>,
    paused: bool,
    j: int,
)
    requires
        0 <= j < creatures.len(),
        j < ids.len(),
        j < plans.len(),
        (creatures, items.to_map(), taken.to_map()) == marched(start, ids, plans, ground, paused, j),
        creatures_after == creatures.update(j, acted_in(creatures[j], plans[j], ground, items, taken, paused)),
        forall|p: Pos|
            #[trigger] items_after.lookup(p) == (if picks_in(creatures[j], plans[j], ground, items, taken, paused) && p == goal(
                creatures[j],
                plans[j],
            ) {
                None
            } else {
                items.lookup(p)
            }),
        forall|p: Pos|
            #[trigger] taken_after.lookup(p) == (if !steps_in(creatures[j], plans[j], ground, taken, paused) {
                taken.lookup(p)
            } else if p == goal(creatures[j], plans[j]) {
                Some(ids[j])
            } else if p == creatures[j].pos && taken.lookup(p) == Some(ids[j]) {
                None
            } else {
                taken.lookup(p)
            }),
    ensures
        (creatures_after, items_after.to_map(), taken_after.to_map()) == marched(start, ids, plans, ground, paused, j + 1),
{
    let prior = (creatures, items.to_map(), taken.to_map());
    let c = creatures[j];
    let id = ids[j];
    let plan = plans[j];
    let g = goal(c, plan);
    let next = marched_one(prior, j, id, plan, ground, paused);
    assert(taken.to_map().dom().contains(g) == taken.contains(g));
    assert(items.lookup(g) == (if items.to_map().dom().contains(g) {
        Some(items.to_map()[g])
    } else {
        None
    }));
    assert(taken.lookup(c.pos) == Some(id) <==> taken.to_map().dom().contains(c.pos) && taken.to_map()[c.pos] == id);
    assert(creatures_after =~= next.0);
    assert(items_after.to_map() =~= next.1) by {
        assert forall|p: Pos| items_after.to_map().dom().contains(p) == next.1.dom().contains(p) by {
            assert(items_after.contains(p) == (items_after.lookup(p) is Some));
        }
        assert forall|p: Pos| items_after.to_map().dom().contains(p) implies items_after.to_map()[p] == next.1[p] by {
            assert(items_after.contains(p) == (items_after.lookup(p) is Some));
        }
    }
    assert(taken_after.to_map() =~= next.2) by {
        assert forall|p: Pos| taken_after.to_map().dom().contains(p) == next.2.dom().contains(p) by {
            assert(taken_after.contains(p) == (taken_after.lookup(p) is Some));
            assert(taken.contains(p) == (taken.lookup(p) is Some));
        }
        assert forall|p: Pos| taken_after.to_map().dom().contains(p) implies taken_after.to_map()[p] == next.2[p] by {
            assert(taken_after.contains(p) == (taken_after.lookup(p) is Some));
            assert(taken.contains(p) == (taken.lookup(p) is Some));
        }
    }
}

/// The bullets of one creature more are fired in their turn.
pub proof fn lemma_fired_extends(
    creatures: Seq<Creature>,
    plans: Seq<Option<Control>>,
    ground: Grid<Tile>,
    start: Seq<Bullet>,
    before: Seq<Bullet>,
    after: Seq<Bullet>,
    j: int,
)
    requires
        0 <= j < creatures.len(),
        j < plans.len(),
        start.len() <= before.len() <= after.len(),
        after.subrange(0, before.len() as int) == before,
        before.len() == start.len() + shots_total(creatures, plans, ground, j),
        after.len() == before.len() + shots(creatures[j], plans[j], ground.lookup(creatures[j].pos)),
        fired_in_turn(creatures, plans, ground, before.subrange(start.len() as int, before.len() as int), j),
        forall|k: int| before.len() <= k < after.len() ==> turn_fires(creatures[j], plans[j], ground, #[trigger] after[k]),
    ensures
        after.len() == start.len() + shots_total(creatures, plans, ground, j + 1),
        fired_in_turn(creatures, plans, ground, after.subrange(start.len() as int, after.len() as int), j + 1),
{
    let old_news = before.subrange(start.len() as int, before.len() as int);
    let news = after.subrange(start.len() as int, after.len() as int);
    assert forall|t: int, i: int|
        0 <= t < j + 1 && shots_total(creatures, plans, ground, t) <= i < shots_total(creatures, plans, ground, t + 1) && i < news.len() implies
        #[trigger] turn_fires(creatures[t], plans[t], ground, news[i]) by {
        lemma_shots_total_grows(creatures, plans, ground, 0, t);
        if t < j {
            lemma_shots_total_grows(creatures, plans, ground, t + 1, j);
            assert(i < old_news.len());
            assert(after.subrange(0, before.len() as int)[start.len() + i] == after[start.len() + i]);
            assert(news[i] == old_news[i]);
            assert(turn_fires(creatures[t], plans[t], ground, old_news[i]));
        } else {
            assert(news[i] == after[start.len() + i]);
        }
    }
}

/// What the map of taken cells says stays true when only the creature at
/// place `i` changes, and the map follows it where it goes.
pub proof fn lemma_act_keeps_exact(
    taken: PosMap<usize>,
    occupancy: PosMap<usize>,
    before: Holder<Creature>,
    after: Holder<Creature>,
    i: int,
    id: usize,
)
    requires
        before.wf(),
        0 <= i < before.ids().len(),
        id == before.ids()[i],
        after.ids() == before.ids(),
        after.items() == before.items().update(i, after.items()[i]),
        after.items()[i].pos == before.items()[i].pos ==> forall|p: Pos| occupancy.lookup(p) == taken.lookup(p),
        after.items()[i].pos != before.items()[i].pos ==> forall|p: Pos|
            #[trigger] occupancy.lookup(p) == (if p == after.items()[i].pos {
                Some(id)
            } else if p == before.items()[i].pos && taken.lookup(p) == Some(id) {
                None
            } else {
                taken.lookup(p)
            }),
    ensures
        exact(taken, before) ==> exact(occupancy, after),
{
    if exact(taken, before) {
        before.lemma_place(i);
        assert forall|p: Pos|
            #[trigger] occupancy.contains(p) implies
            after.contains(occupancy.lookup(p).unwrap()) && after.value(occupancy.lookup(p).unwrap()).pos == p by {
            if occupancy.lookup(p) is Some {
                let other = occupancy.lookup(p).unwrap();
                if after.items()[i].pos != before.items()[i].pos && p == after.items()[i].pos {
                    assert(other == id);
                } else {
                    assert(taken.lookup(p) == Some(other));
                    assert(taken.contains(p));
                    assert(before.contains(other) && before.value(other).pos == p);
                    if other == id {
                        assert(p == before.items()[i].pos);
                    } else {
                        assert(before.place(other) != i);
                    }
                }
            }
        }
    }
}

/// No two creatures come to stand on one cell when the creature at place
/// `i` steps only onto a cell that the map of taken cells does not know.
pub proof fn lemma_act_keeps_distinct(
    taken: PosMap<usize>,
    occupancy: PosMap<usize>,
    before: Seq<Creature>,
    after: Seq<Creature>,
    i: int,
)
    requires
        0 <= i < before.len(),
        after == before.update(i, after[i]),
        after[i].pos != before[i].pos ==> !taken.contains(after[i].pos),
        after[i].pos != before[i].pos ==> forall|p: Pos|
            p != before[i].pos ==> (taken.contains(p) ==> #[trigger] occupancy.contains(p)),
        after[i].pos != before[i].pos ==> occupancy.contains(after[i].pos),
        after[i].pos == before[i].pos ==> forall|p: Pos| taken.contains(p) ==> #[trigger] occupancy.contains(p),
    ensures
        World::cells_distinct(before) && covers(taken, before) ==> World::cells_distinct(after) && covers(occupancy, after),
{
    if World::cells_distinct(before) && covers(taken, before) {
        assert forall|a: int, b: int|
            0 <= a < b < after.len() implies
            (#[trigger] after[a]).pos != (#[trigger] after[b]).pos by {
            assert(before[a].pos != before[b].pos);
            if a == i {
                assert(taken.contains(before[b].pos));
            } else if b == i {
                assert(taken.contains(before[a].pos));
            }
        }
        assert forall|k: int| 0 <= k < after.len() implies occupancy.contains((#[trigger] after[k]).pos) by {
            if k != i {
                assert(taken.contains(before[k].pos));
                if k < i {
                    assert(before[k].pos != before[i].pos);
                } else {
                    assert(before[i].pos != before[k].pos);
                }
            } else {
                assert(taken.contains(before[i].pos));
            }
        }
    }
}

impl World {
    /// Whether the round is in a pause.
    pub open spec fn is_paused(self) -> bool {
        self.round_state is Paused
    }

    /// Whether creatures `a` and `b` are the same but for what a tick
    /// can change: cell, facing, health, cooldown and selection.
    pub open spec fn same_kind(a: Creature, b: Creature) -> bool {
        &&& a.mind == b.mind
        &&& a.alignment == b.alignment
        &&& a.is_building == b.is_building
        &&& a.max_health == b.max_health
        &&& a.walk_cooldown == b.walk_cooldown
        &&& a.sprite == b.sprite
        &&& a.weapons == b.weapons
    }

    /// Whether `after` is what the creature at place `k` of this world can
    /// be after its tick: what `acted` gives for a plan that fits if the
    /// creature is ready for one, and for none if it is not, with the goal
    /// free or taken and with or without an item on it.
    pub open spec fn tick_fits(self, k: int, after: Creature) -> bool {
        let c = self.creatures.items()[k];
        exists|plan: Option<Control>, free: bool, item: Option<Item>|
            (if c.cooldown.0 == 0 {
                self.plan_fits(k, plan)
            } else {
                plan is None
            }) && #[trigger] acted(
                c,
                plan,
                self.ground.lookup(c.pos),
                self.ground.lookup(goal(c, plan)),
                free,
                item,
                self.is_paused(),
            ) == after
    }

    /// A building stays where it is: it has the mind of a pillar,
    /// plans nothing and so makes no step.
    pub proof fn lemma_building_stays(self, k: int, after: Creature)
        requires
            self.tick_fits(k, after),
            self.creatures.items()[k].is_building,
            self.creatures.items()[k].wf(),
        ensures
            after.pos == self.creatures.items()[k].pos,
    {
        let c = self.creatures.items()[k];
        let (plan, free, item) = choose|plan: Option<Control>, free: bool, item: Option<Item>|
            (if c.cooldown.0 == 0 {
                self.plan_fits(k, plan)
            } else {
                plan is None
            }) && #[trigger] acted(c, plan, self.ground.lookup(c.pos), self.ground.lookup(goal(c, plan)), free, item, self.is_paused()) == after;
        assert(plan is None);
        lemma_acted_wf(c, plan, self.ground.lookup(c.pos), self.ground.lookup(goal(c, plan)), free, item, self.is_paused());
    }

    /// The map of taken cells for the creatures as they stand: each cell
    /// with the key of the creature on it, the last one of several.
    pub fn snapshot(&self) -> (occupancy: PosMap<usize>)
        requires
            self.creatures.wf(),
        ensures
            occupancy.wf(),
            exact(occupancy, self.creatures),
            covers(occupancy, self.creatures.items()),
            occupancy.to_map() == spec_snapshot(
                self.creatures.ids(),
                self.creatures.items(),
                self.creatures.items().len() as int,
            ),
    {
        let mut occupancy: PosMap<usize> = PosMap::new();
        assert(occupancy.to_map() =~= Map::<Pos, usize>::empty());
        let n = self.creatures.len();
        let mut i: usize = 0;
        while i < n
            invariant
                self.creatures.wf(),
                n == self.creatures.items().len(),
                i <= n,
                occupancy.wf(),
                exact(occupancy, self.creatures),
                forall|k: int| 0 <= k < i ==> occupancy.contains((#[trigger] self.creatures.items()[k]).pos),
                occupancy.to_map() == spec_snapshot(self.creatures.ids(), self.creatures.items(), i as int),
            decreases n - i,
        {
            let id = self.creatures.key_at(i);
            let pos = self.creatures.value_at(i).pos;
            let ghost before = occupancy;
            occupancy.insert(pos, id);
            proof {
                assert(occupancy.to_map() =~= before.to_map().insert(pos, id)) by {
                    assert forall|p: Pos| occupancy.to_map().dom().contains(p) == before.to_map().insert(pos, id).dom().contains(p) by {
                        if p != pos {
                            assert(occupancy.lookup(p) == before.lookup(p));
                        }
                    }
                    assert forall|p: Pos|
                        occupancy.to_map().dom().contains(p) implies
                        occupancy.to_map()[p] == before.to_map().insert(pos, id)[p] by {
                        if p != pos {
                            assert(occupancy.lookup(p) == before.lookup(p));
                        }
                    }
                }
                self.creatures.lemma_place(i as int);
                assert forall|p: Pos|
                    #[trigger] occupancy.contains(p) implies
                    self.creatures.contains(occupancy.lookup(p).unwrap()) && self.creatures.value(occupancy.lookup(p).unwrap()).pos == p by {
                    if p != pos {
                        assert(occupancy.lookup(p) == before.lookup(p));
                        assert(before.contains(p));
                    }
                }
                assert forall|k: int|
                    0 <= k < i + 1 implies
                    occupancy.contains((#[trigger] self.creatures.items()[k]).pos) by {
                    let q = self.creatures.items()[k].pos;
                    if q != pos {
                        assert(before.contains(q));
                        assert(occupancy.lookup(q) == before.lookup(q));
                    }
                }
            }
            i += 1;
        }
        occupancy
    }

    /// Lets the creature at place `i` have its tick in this world, see `act`.
    pub fn tick_creature(&mut self, i: usize, plan: Option<Control>, occupancy: &mut PosMap<usize>)
        requires
            old(self).wf(),
            i < old(self).creatures.items().len(),
            plan matches Some(control) ==> control.wf(),
            old(occupancy).wf(),
        ensures
            final(self).wf(),
            final(occupancy).wf(),
            *final(self) == (World {
                creatures: final(self).creatures,
                bullets: final(self).bullets,
                items: final(self).items,
                dice: final(self).dice,
                ..*old(self)
            }),
            final(self).creatures.ids() == old(self).creatures.ids(),
            final(self).creatures.counter() == old(self).creatures.counter(),
            final(self).creatures.items() == old(self).creatures.items().update(
                i as int,
                acted_in(
                    old(self).creatures.items()[i as int],
                    plan,
                    old(self).ground,
                    old(self).items,
                    *old(occupancy),
                    old(self).is_paused(),
                ),
            ),
            World::same_kind(final(self).creatures.items()[i as int], old(self).creatures.items()[i as int]),
            final(self).bullets@.len() >= old(self).bullets@.len(),
            final(self).bullets@.subrange(0, old(self).bullets@.len() as int) == old(self).bullets@,
            final(self).bullets@.len() == old(self).bullets@.len() + shots(
                old(self).creatures.items()[i as int],
                plan,
                old(self).ground.lookup(old(self).creatures.items()[i as int].pos),
            ),
            forall|k: int|
                old(self).bullets@.len() <= k < final(self).bullets@.len() ==> shot_by(
                    old(self).creatures.items()[i as int],
                    #[trigger] final(self).bullets@[k],
                ) && turn_fires(old(self).creatures.items()[i as int], plan, old(self).ground, final(self).bullets@[k]),
            forall|p: Pos| #[trigger] final(self).items.lookup(p) == old(self).items.lookup(p) || final(self).items.lookup(p) is None,
            forall|p: Pos|
                #[trigger] final(self).items.lookup(p) == (if picks_in(
                    old(self).creatures.items()[i as int],
                    plan,
                    old(self).ground,
                    old(self).items,
                    *old(occupancy),
                    old(self).is_paused(),
                ) && p == goal(old(self).creatures.items()[i as int], plan) {
                    None
                } else {
                    old(self).items.lookup(p)
                }),
            forall|p: Pos|
                #[trigger] final(occupancy).lookup(p) == (if !steps_in(
                    old(self).creatures.items()[i as int],
                    plan,
                    old(self).ground,
                    *old(occupancy),
                    old(self).is_paused(),
                ) {
                    old(occupancy).lookup(p)
                } else if p == goal(old(self).creatures.items()[i as int], plan) {
                    Some(old(self).creatures.ids()[i as int])
                } else if p == old(self).creatures.items()[i as int].pos && old(occupancy).lookup(p) == Some(
                    old(self).creatures.ids()[i as int],
                ) {
                    None
                } else {
                    old(occupancy).lookup(p)
                }),
            exact(*old(occupancy), old(self).creatures) ==> exact(*final(occupancy), final(self).creatures),
            World::cells_distinct(old(self).creatures.items()) && covers(*old(occupancy), old(self).creatures.items())
                ==> World::cells_distinct(final(self).creatures.items()) && covers(
                *final(occupancy),
                final(self).creatures.items(),
            ),
    {
        let ghost before = *self;
        let ghost taken = *occupancy;
        let ghost old_c = self.creatures.items()[i as int];
        let paused = match self.round_state {
            RoundState::Paused(_) => true,
            _ => false,
        };
        proof {
            assert(old_c.wf() && self.ground.contains(old_c.pos));
            lemma_acted_wf(
                old_c,
                plan,
                self.ground.lookup(old_c.pos),
                self.ground.lookup(goal(old_c, plan)),
                !occupancy.contains(goal(old_c, plan)),
                self.items.lookup(goal(old_c, plan)),
                paused,
            );
        }
        act(
            &mut self.creatures,
            i,
            plan,
            &self.ground,
            &mut self.items,
            &mut self.bullets,
            occupancy,
            paused,
            &mut self.dice,
        );
        proof {
            let new_c = self.creatures.items()[i as int];
            assert(new_c == acted_in(old_c, plan, before.ground, before.items, taken, paused));
            if steps_in(old_c, plan, before.ground, taken, paused) {
                assert(new_c.pos == goal(old_c, plan));
                assert(self.ground.contains(new_c.pos));
                assert(occupancy.lookup(new_c.pos) is Some);
            }
            assert forall|k: int| 0 <= k < self.bullets@.len() implies (#[trigger] self.bullets@[k]).wf() by {
                if k < before.bullets@.len() {
                    assert(self.bullets@[k] == self.bullets@.subrange(0, before.bullets@.len() as int)[k]);
                }
            }
            assert forall|k: int|
                before.bullets@.len() <= k < self.bullets@.len() implies
                shot_by(old_c, #[trigger] self.bullets@[k]) by {
                let shot = fires(old_c, plan, before.ground.lookup(old_c.pos));
                assert(shot is Some);
                assert(shot.unwrap().0 == old_c.spec_weapon().unwrap());
                assert(old_c.spec_weapon().unwrap().fired(old_c.pos, shot.unwrap().1, old_c.alignment, self.bullets@[k]));
            }
            self.lemma_tick_keeps_wf(before, i as int);
            assert forall|p: Pos| taken.contains(p) && p != old_c.pos implies #[trigger] occupancy.contains(p) by {
                assert(occupancy.lookup(p) is Some);
            }
            if !steps_in(old_c, plan, before.ground, taken, paused) {
                assert forall|p: Pos| taken.contains(p) implies #[trigger] occupancy.contains(p) by {
                    assert(occupancy.lookup(p) == taken.lookup(p));
                }
            }
            lemma_act_keeps_exact(taken, *occupancy, before.creatures, self.creatures, i as int, before.creatures.ids()[i as int]);
            lemma_act_keeps_distinct(taken, *occupancy, before.creatures.items(), self.creatures.items(), i as int);
        }
    }

    /// The world stays well formed when one creature changes into a
    /// well-formed one on the ground, bullets that are well formed are
    /// added, and items go.
    pub proof fn lemma_tick_keeps_wf(self, before: World, i: int)
        requires
            before.wf(),
            0 <= i < before.creatures.items().len(),
            self == (World { creatures: self.creatures, bullets: self.bullets, items: self.items, dice: self.dice, ..before }),
            self.creatures.ids() == before.creatures.ids(),
            self.creatures.counter() == before.creatures.counter(),
            self.creatures.items() == before.creatures.items().update(i, self.creatures.items()[i]),
            self.creatures.items()[i].wf(),
            self.ground.contains(self.creatures.items()[i].pos),
            self.items.wf(),
            forall|k: int| 0 <= k < self.bullets@.len() ==> (#[trigger] self.bullets@[k]).wf(),
        ensures
            self.wf(),
    {
        assert forall|k: int|
            0 <= k < self.creatures.items().len() implies
            (#[trigger] self.creatures.items()[k]).wf() && self.ground.contains(self.creatures.items()[k].pos) by {
            if k != i {
                assert(self.creatures.items()[k] == before.creatures.items()[k]);
            }
        }
    }

    /// Whether the creatures, the items, the map of taken cells and the
    /// number of the bullets are what the ticks of the creatures of
    /// `before` leave, one after the other and each with its plan, where
    /// each creature that is ready has a plan that fits and no other
    /// creature has one. See `marched` and `plan_fits`.
    pub open spec fn marched_from(self, before: World, occupancy: PosMap<usize>, plans: Seq<Option<Control>>) -> bool {
        let n = before.creatures.items().len() as int;
        let planned = World { player_distances: self.player_distances, ..before };
        &&& plans.len() == n
        &&& forall|k: int|
            0 <= k < n ==> (if before.creatures.items()[k].cooldown.0 == 0 {
                planned.plan_fits(k, #[trigger] plans[k])
            } else {
                plans[k] is None
            })
        &&& (self.creatures.items(), self.items.to_map(), occupancy.to_map()) == marched(
            (
                before.creatures.items(),
                before.items.to_map(),
                spec_snapshot(before.creatures.ids(), before.creatures.items(), n),
            ),
            before.creatures.ids(),
            plans,
            before.ground,
            before.is_paused(),
            n,
        )
        &&& self.bullets@.len() == before.bullets@.len() + shots_total(before.creatures.items(), plans, before.ground, n)
        &&& self.bullets@.subrange(0, before.bullets@.len() as int) == before.bullets@
        &&& fired_in_turn(
            before.creatures.items(),
            plans,
            before.ground,
            self.bullets@.subrange(before.bullets@.len() as int, self.bullets@.len() as int),
            n,
        )
    }

    /// The first part of a tick: the map of taken cells is drawn up
    /// and the distances to the players are worked out; every creature
    /// that is ready makes its plan; then the creatures have their ticks
    /// one after the other, in the order in which they came into the world.
    /// The map of taken cells is handed on to the bullets.
    pub fn update_creatures(&mut self) -> (occupancy: PosMap<usize>)
        requires
            old(self).wf(),
        ensures
            final(self).wf(),
            *final(self) == (World {
                creatures: final(self).creatures,
                bullets: final(self).bullets,
                items: final(self).items,
                dice: final(self).dice,
                player_distances: final(self).player_distances,
                ..*old(self)
            }),
            exists|plans: Seq<Option<Control>>| #[trigger] final(self).marched_from(*old(self), occupancy, plans),
            final(self).creatures.ids() == old(self).creatures.ids(),
            final(self).creatures.counter() == old(self).creatures.counter(),
            occupancy.wf(),
            exact(occupancy, final(self).creatures),
            World::cells_distinct(old(self).creatures.items()) ==> World::cells_distinct(final(self).creatures.items())
                && covers(occupancy, final(self).creatures.items()),
            is_distance_field(final(self).ground, sources(old(self).creatures.items(), false), final(self).player_distances),
            final(self).bullets@.len() >= old(self).bullets@.len(),
            final(self).bullets@.subrange(0, old(self).bullets@.len() as int) == old(self).bullets@,
            forall|k: int|
                old(self).bullets@.len() <= k < final(self).bullets@.len() ==> shot_among(
                    old(self).creatures.items(),
                    #[trigger] final(self).bullets@[k],
                ),
            forall|p: Pos| #[trigger] final(self).items.lookup(p) == old(self).items.lookup(p) || final(self).items.lookup(p) is None,
            forall|k: int|
                0 <= k < old(self).creatures.items().len() ==> World::same_kind(
                    #[trigger] final(self).creatures.items()[k],
                    old(self).creatures.items()[k],
                ),
            forall|k: int|
                0 <= k < old(self).creatures.items().len() && old(self).creatures.items()[k].health.0 <= 0
                    ==> #[trigger] final(self).creatures.items()[k] == old(self).creatures.items()[k],
            forall|k: int|
                0 <= k < old(self).creatures.items().len() ==> (World {
                    player_distances: final(self).player_distances,
                    ..*old(self)
                }).tick_fits(k, #[trigger] final(self).creatures.items()[k]),
    {
        let mut occupancy = self.snapshot();
        let ghost drawn = occupancy.to_map();
        self.compute_player_distances();
        let n = self.creatures.len();
        let ghost start = *self;
        let mut plans: Vec<Option<Control>> = Vec::new();
        let mut i: usize = 0;
        while i < n
            invariant
                i <= n,
                n == self.creatures.items().len(),
                self.wf(),
                *self == (World { dice: self.dice, ..start }),
                plans@.len() == i,
                forall|k: int| 0 <= k < i ==> ((#[trigger] plans@[k]) matches Some(control) ==> control.wf()),
                forall|k: int|
                    0 <= k < i ==> (if start.creatures.items()[k].cooldown.0 == 0 {
                        start.plan_fits(k, #[trigger] plans@[k])
                    } else {
                        plans@[k] is None
                    }),
            decreases n - i,
        {
            let ready = self.creatures.value_at(i).cooldown.0 == 0;
            let ghost before = *self;
            let plan = if ready {
                self.creature_plan(i)
            } else {
                None
            };
            proof {
                if ready {
                    assert(before.plan_fits(i as int, plan));
                    assert(start.plan_fits(i as int, plan));
                }
            }
            plans.push(plan);
            i += 1;
        }
        let ghost planned = *self;
        let mut j: usize = 0;
        while j < n
            invariant
                j <= n,
                n == planned.creatures.items().len(),
                n == self.creatures.items().len(),
                plans@.len() == n,
                forall|k: int| 0 <= k < n ==> ((#[trigger] plans@[k]) matches Some(control) ==> control.wf()),
                forall|k: int|
                    0 <= k < n ==> (if planned.creatures.items()[k].cooldown.0 == 0 {
                        planned.plan_fits(k, #[trigger] plans@[k])
                    } else {
                        plans@[k] is None
                    }),
                forall|k: int| 0 <= k < j ==> planned.tick_fits(k, #[trigger] self.creatures.items()[k]),
                (self.creatures.items(), self.items.to_map(), occupancy.to_map()) == marched(
                    (planned.creatures.items(), planned.items.to_map(), drawn),
                    planned.creatures.ids(),
                    plans@,
                    planned.ground,
                    planned.is_paused(),
                    j as int,
                ),
                self.bullets@.len() == planned.bullets@.len() + shots_total(
                    planned.creatures.items(),
                    plans@,
                    planned.ground,
                    j as int,
                ),
                fired_in_turn(
                    planned.creatures.items(),
                    plans@,
                    planned.ground,
                    self.bullets@.subrange(planned.bullets@.len() as int, self.bullets@.len() as int),
                    j as int,
                ),
                self.wf(),
                occupancy.wf(),
                *self == (World {
                    creatures: self.creatures,
                    bullets: self.bullets,
                    items: self.items,
                    dice: self.dice,
                    ..planned
                }),
                self.creatures.ids() == planned.creatures.ids(),
                self.creatures.counter() == planned.creatures.counter(),
                exact(occupancy, self.creatures),
                World::cells_distinct(planned.creatures.items()) ==> World::cells_distinct(self.creatures.items())
                    && covers(occupancy, self.creatures.items()),
                self.bullets@.len() >= planned.bullets@.len(),
                self.bullets@.subrange(0, planned.bullets@.len() as int) == planned.bullets@,
                forall|k: int|
                    planned.bullets@.len() <= k < self.bullets@.len() ==> shot_among(
                        planned.creatures.items(),
                        #[trigger] self.bullets@[k],
                    ),
                forall|p: Pos| #[trigger] self.items.lookup(p) == planned.items.lookup(p) || self.items.lookup(p) is None,
                forall|k: int| 0 <= k < n ==> World::same_kind(#[trigger] self.creatures.items()[k], planned.creatures.items()[k]),
                forall|k: int| j <= k < n ==> #[trigger] self.creatures.items()[k] == planned.creatures.items()[k],
                forall|k: int|
                    0 <= k < n && planned.creatures.items()[k].health.0 <= 0 ==> #[trigger] self.creatures.items()[k]
                        == planned.creatures.items()[k],
            decreases n - j,
        {
            let ghost before = *self;
            let ghost taken = occupancy;
            let plan = plans[j];
            self.tick_creature(j, plan, &mut occupancy);
            proof {
                lemma_march_extends(
                    before.creatures.items(),
                    self.creatures.items(),
                    before.items,
                    self.items,
                    taken,
                    occupancy,
                    (planned.creatures.items(), planned.items.to_map(), drawn),
                    planned.creatures.ids(),
                    plans@,
                    planned.ground,
                    planned.is_paused(),
                    j as int,
                );
                lemma_fired_extends(
                    planned.creatures.items(),
                    plans@,
                    planned.ground,
                    planned.bullets@,
                    before.bullets@,
                    self.bullets@,
                    j as int,
                );
            }
            proof {
                assert forall|k: int|
                    planned.bullets@.len() <= k < self.bullets@.len() implies
                    shot_among(planned.creatures.items(), #[trigger] self.bullets@[k]) by {
                    if k < before.bullets@.len() {
                        assert(self.bullets@.subrange(0, before.bullets@.len() as int)[k] == self.bullets@[k]);
                        assert(shot_among(planned.creatures.items(), before.bullets@[k]));
                    } else {
                        assert(before.creatures.items()[j as int] == planned.creatures.items()[j as int]);
                        assert(shot_by(planned.creatures.items()[j as int], self.bullets@[k]));
                    }
                }
                assert forall|k: int|
                    0 <= k < j + 1 implies
                    planned.tick_fits(k, #[trigger] self.creatures.items()[k]) by {
                    if k < j {
                        assert(self.creatures.items()[k] == before.creatures.items()[k]);
                    } else {
                        let c = planned.creatures.items()[k];
                        assert(before.creatures.items()[k] == c);
                        let free = !taken.contains(goal(c, plan));
                        let item = before.items.lookup(goal(c, plan));
                        assert(acted(c, plan, planned.ground.lookup(c.pos), planned.ground.lookup(goal(c, plan)), free, item, planned.is_paused()) == self.creatures.items()[k]);
                    }
                }
                assert(self.bullets@.subrange(0, planned.bullets@.len() as int) =~= before.bullets@.subrange(
                    0,
                    planned.bullets@.len() as int,
                )) by {
                    assert(self.bullets@.subrange(0, before.bullets@.len() as int) == before.bullets@);
                    assert forall|k: int|
                        0 <= k < planned.bullets@.len() implies
                        self.bullets@[k] == before.bullets@[k] by {
                        assert(self.bullets@.subrange(0, before.bullets@.len() as int)[k] == self.bullets@[k]);
                    }
                }
                assert forall|k: int|
                    0 <= k < n implies
                    World::same_kind(#[trigger] self.creatures.items()[k], planned.creatures.items()[k]) by {
                    if k != j {
                        assert(self.creatures.items()[k] == before.creatures.items()[k]);
                    }
                }
                assert forall|k: int|
                    0 <= k < n && planned.creatures.items()[k].health.0 <= 0 implies
                    #[trigger] self.creatures.items()[k] == planned.creatures.items()[k] by {
                    if k != j {
                        assert(self.creatures.items()[k] == before.creatures.items()[k]);
                    }
                }
            }
            j += 1;
        }
        proof {
            let shown = World { player_distances: self.player_distances, ..*old(self) };
            assert forall|k: int|
                0 <= k < n implies
                (if old(self).creatures.items()[k].cooldown.0 == 0 {
                    shown.plan_fits(k, #[trigger] plans@[k])
                } else {
                    plans@[k] is None
                }) by {
                assert(shown.plan_fits(k, plans@[k]) == planned.plan_fits(k, plans@[k]));
            }
            assert(self.marched_from(*old(self), occupancy, plans@));
            assert forall|k: int|
                0 <= k < old(self).creatures.items().len() implies
                shown.tick_fits(k, #[trigger] self.creatures.items()[k]) by {
                assert(planned.tick_fits(k, self.creatures.items()[k]));
                let c = planned.creatures.items()[k];
                let (plan, free, item) = choose|plan: Option<Control>, free: bool, item: Option<Item>|
                    (if c.cooldown.0 == 0 {
                        planned.plan_fits(k, plan)
                    } else {
                        plan is None
                    }) && #[trigger] acted(c, plan, planned.ground.lookup(c.pos), planned.ground.lookup(goal(c, plan)), free, item, planned.is_paused()) == self.creatures.items()[k];
                assert(shown.plan_fits(k, plan) == planned.plan_fits(k, plan));
                assert(acted(c, plan, shown.ground.lookup(c.pos), shown.ground.lookup(goal(c, plan)), free, item, shown.is_paused()) == self.creatures.items()[k]);
            }
        }
        occupancy
    }
}

} // verus!
