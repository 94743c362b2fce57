use vstd::prelude::*;
use crate::controls::Control;
use crate::creature::{Creature, Mind};
use crate::dice::Dice;
use crate::distance::walkable;
use crate::grid::Grid;
use crate::holder::Holder;
use crate::mapgen::size_fits;
use crate::pos::{Direction, GRID_LIMIT, Pos};
use crate::tile::Tile;
use crate::util::{Percentage, spec_abs};
use crate::world::World;

verus! {

/// The number of steps between two cells.
pub open spec fn steps_between(a: Pos, b: Pos) -> int {
    spec_abs(b.x - a.x) + spec_abs(b.y - a.y)
}

/// Whether `c` is something that `hunter` goes for: a hostile building
/// for a hunter of buildings, else a hostile creature that is no
/// building and does not stand on sanctuary.
pub open spec fn is_target(ground: Grid<Tile>, hunter: Creature, buildings: bool, c: Creature) -> bool {
    &&& c.alignment != hunter.alignment
    &&& if buildings {
        c.is_building
    } else {
        !c.is_building && ground.lookup(c.pos) != Some(Tile::Sanctuary)
    }
}

/// The cell of the target nearest to the hunter, the first of them in
/// the order of the creatures where several are as near.
pub open spec fn nearest_target(ground: Grid<Tile>, hunter: Creature, buildings: bool, creatures: Seq<Creature>) -> Option<Pos>
    decreases creatures.len(),
{
    if creatures.len() == 0 {
        None
    } else {
        let rest = nearest_target(ground, hunter, buildings, creatures.drop_last());
        let c = creatures.last();
        if is_target(ground, hunter, buildings, c) {
            match rest {
                Some(t) => if steps_between(hunter.pos, c.pos) < steps_between(hunter.pos, t) {
                    Some(c.pos)
                } else {
                    rest
                },
                None => Some(c.pos),
            }
        } else {
            rest
        }
    }
}

/// The nearest target is the cell of a target, and no target is nearer.
pub proof fn lemma_nearest_target(ground: Grid<Tile>, hunter: Creature, buildings: bool, creatures: Seq<Creature>)
    ensures
        match nearest_target(ground, hunter, buildings, creatures) {
            Some(t) => {
                &&& exists|i: int| 0 <= i < creatures.len() && is_target(ground, hunter, buildings, #[trigger] creatures[i]) && creatures[i].pos == t
                &&& forall|i: int| 0 <= i < creatures.len() && is_target(ground, hunter, buildings, #[trigger] creatures[i]) ==> steps_between(hunter.pos, t) <= steps_between(hunter.pos, creatures[i].pos)
            },
            None => forall|i: int| 0 <= i < creatures.len() ==> !is_target(ground, hunter, buildings, #[trigger] creatures[i]),
        },
    decreases creatures.len(),
{
    if creatures.len() > 0 {
        let front = creatures.drop_last();
        lemma_nearest_target(ground, hunter, buildings, front);
        let c = creatures.last();
        let last = creatures.len() - 1;
        assert forall|i: int| 0 <= i < front.len() implies front[i] == creatures[i] by {}
        match nearest_target(ground, hunter, buildings, creatures) {
            Some(t) => {
                if is_target(ground, hunter, buildings, c) && c.pos == t {
                    assert(creatures[last] == c);
                } else {
                    let w = choose|i: int| 0 <= i < front.len() && is_target(ground, hunter, buildings, #[trigger] front[i]) && front[i].pos == t;
                    assert(creatures[w] == front[w]);
                }
                assert forall|i: int|
                    0 <= i < creatures.len() && is_target(ground, hunter, buildings, #[trigger] creatures[i]) implies
                    steps_between(hunter.pos, t) <= steps_between(hunter.pos, creatures[i].pos) by {
                    if i < last {
                        assert(front[i] == creatures[i]);
                    }
                }
            },
            None => {
                assert forall|i: int|
                    0 <= i < creatures.len() implies
                    !is_target(ground, hunter, buildings, #[trigger] creatures[i]) by {
                    if i < last {
                        assert(front[i] == creatures[i]);
                    }
                }
            },
        }
    }
}

/// Whether a target at `dist` steps is near enough to fire at with a
/// weapon of the given range: within the range for a short weapon, and
/// within ten elevenths of it for any.
pub open spec fn in_reach(range: int, dist: int) -> bool {
    (range <= 5 && dist <= range) || dist * 11 <= range * 10
}

/// What a step onto `p` costs by a distance field: the distance, and as
/// much as can be where there is none.
pub open spec fn field_cost(field: Grid<Option<usize>>, p: Pos) -> int {
    match field.lookup(p) {
        Some(Some(d)) => d as int,
        _ => usize::MAX as int,
    }
}

/// The first of the directions that leads to a cell of least cost.
pub open spec fn first_best(candidates: Seq<Direction>, field: Grid<Option<usize>>, pos: Pos) -> Direction
    recommends
        candidates.len() > 0,
    decreases candidates.len(),
{
    if candidates.len() <= 1 {
        candidates[0]
    } else {
        let best = first_best(candidates.drop_last(), field, pos);
        if field_cost(field, pos.step(candidates.last())) < field_cost(field, pos.step(best)) {
            candidates.last()
        } else {
            best
        }
    }
}

/// The best direction is one of the candidates, and none costs less.
pub proof fn lemma_first_best(candidates: Seq<Direction>, field: Grid<Option<usize>>, pos: Pos)
    requires
        candidates.len() > 0,
    ensures
        candidates.contains(first_best(candidates, field, pos)),
        forall|i: int| 0 <= i < candidates.len() ==> field_cost(field, pos.step(first_best(candidates, field, pos))) <= field_cost(field, pos.step(#[trigger] candidates[i])),
    decreases candidates.len(),
{
    if candidates.len() <= 1 {
        assert(candidates[0] == first_best(candidates, field, pos));
    } else {
        let front = candidates.drop_last();
        lemma_first_best(front, field, pos);
        let best = first_best(front, field, pos);
        let k = front.index_of(best);
        assert(candidates[k] == best);
        assert(candidates[candidates.len() - 1] == candidates.last());
        assert forall|i: int|
            0 <= i < candidates.len() implies
            field_cost(field, pos.step(first_best(candidates, field, pos))) <= field_cost(field, pos.step(#[trigger] candidates[i])) by {
            if i < front.len() {
                assert(front[i] == candidates[i]);
            }
        }
    }
}

/// Whether `plan` is what a monster may plan: to fire at the nearest
/// target where that is in reach of its weapon; else to step onto a
/// walkable neighbour cell, and onto one of least cost by the distance
/// field unless it may wander; and nothing where no neighbour is walkable.
pub open spec fn monster_plan_fits(
    creature: Creature,
    creatures: Seq<Creature>,
    ground: Grid<Tile>,
    field: Grid<Option<usize>>,
    buildings: bool,
    deviation: Percentage,
    plan: Option<Control>,
) -> bool {
    let target = nearest_target(ground, creature, buildings, creatures);
    let range = match creature.spec_weapon() {
        Some(weapon) => weapon.ammo.range.0 as int,
        None => 0,
    };
    if target matches Some(t) && in_reach(range, steps_between(creature.pos, t)) {
        plan == Some(Control::ShootPrecise(Pos { x: (target.unwrap().x - creature.pos.x) as i64, y: (target.unwrap().y - creature.pos.y) as i64 }))
    } else {
        match plan {
            None => forall|dir: Direction| !walkable(ground, #[trigger] creature.pos.step(dir)),
            Some(Control::Move(d)) => {
                &&& walkable(ground, creature.pos.step(d))
                &&& (deviation.0 <= 0 ==> forall|dir: Direction| walkable(ground, #[trigger] creature.pos.step(dir)) ==> field_cost(field, creature.pos.step(d)) <= field_cost(field, creature.pos.step(dir)))
            },
            Some(_) => false,
        }
    }
}

/// The cell of the target nearest to `hunter`.
pub fn find_target(hunter: &Creature, creatures: &Holder<Creature>, ground: &Grid<Tile>, buildings: bool) -> (r: Option<Pos>)
    requires
        ground.wf(),
        size_fits(ground.spec_size()),
        creatures.wf(),
        ground.contains(hunter.pos),
        forall|i: int| 0 <= i < creatures.items().len() ==> ground.contains((#[trigger] creatures.items()[i]).pos),
    ensures
        r == nearest_target(*ground, *hunter, buildings, creatures.items()),
        r matches Some(t) ==> ground.contains(t),
        r matches Some(t) ==> forall|i: int|
            0 <= i < creatures.items().len() && is_target(*ground, *hunter, buildings, #[trigger] creatures.items()[i])
                ==> steps_between(hunter.pos, t) <= steps_between(hunter.pos, creatures.items()[i].pos),
        r is None ==> forall|i: int|
            0 <= i < creatures.items().len() ==> !is_target(*ground, *hunter, buildings, #[trigger] creatures.items()[i]),
{
    proof {
        lemma_nearest_target(*ground, *hunter, buildings, creatures.items());
    }
    let mut target: Option<Pos> = None;
    let n = creatures.len();
    let mut i: usize = 0;
    while i < n
        invariant
            ground.wf(),
            size_fits(ground.spec_size()),
            creatures.wf(),
            ground.contains(hunter.pos),
            forall|k: int| 0 <= k < creatures.items().len() ==> ground.contains((#[trigger] creatures.items()[k]).pos),
            n == creatures.items().len(),
            i <= n,
            target == nearest_target(*ground, *hunter, buildings, creatures.items().subrange(0, i as int)),
            target matches Some(t) ==> ground.contains(t),
        decreases n - i,
    {
        let c = creatures.value_at(i);
        proof {
            let next = creatures.items().subrange(0, i + 1);
            assert(next.drop_last() =~= creatures.items().subrange(0, i as int));
            assert(next.last() == *c);
            assert(ground.contains(creatures.items()[i as int].pos));
        }
        let hostile = c.alignment != hunter.alignment;
        let wanted = if buildings {
            c.is_building
        } else {
            !c.is_building && !(match ground.get(c.pos) {
                Some(tile) => *tile == Tile::Sanctuary,
                None => false,
            })
        };
        if hostile && wanted {
            match target {
                Some(t) => {
                    if hunter.pos.distance_to(c.pos) < hunter.pos.distance_to(t) {
                        target = Some(c.pos);
                    }
                },
                None => {
                    target = Some(c.pos);
                },
            }
        }
        i += 1;
    }
    assert(creatures.items().subrange(0, n as int) =~= creatures.items());
    target
}

/// What a step onto `p` costs by a distance field.
pub fn cost_of(field: &Grid<Option<usize>>, p: Pos) -> (r: usize)
    requires
        field.wf(),
    ensures
        r == field_cost(*field, p),
{
    match field.get(p) {
        Some(Some(d)) => *d,
        _ => usize::MAX,
    }
}

/// The step to take among the candidates: the first one for a wandering
/// creature, else the first one of least cost; none without candidates.
pub fn choose_step(candidates: &Vec<Direction>, field: &Grid<Option<usize>>, pos: Pos, wander: bool) -> (r: Option<Control>)
    requires
        field.wf(),
        pos.within(i64::MAX - 1),
    ensures
        r == (if candidates@.len() == 0 {
            None
        } else if wander {
            Some(Control::Move(candidates@[0]))
        } else {
            Some(Control::Move(first_best(candidates@, *field, pos)))
        }),
{
    if candidates.len() == 0 {
        return None;
    }
    if wander {
        return Some(Control::Move(candidates[0]));
    }
    let mut best = candidates[0];
    let mut best_cost = cost_of(field, pos + best);
    let mut i: usize = 1;
    assert(candidates@.subrange(0, 1).len() == 1);
    while i < candidates.len()
        invariant
            field.wf(),
            pos.within(i64::MAX - 1),
            1 <= i <= candidates@.len(),
            best == first_best(candidates@.subrange(0, i as int), *field, pos),
            best_cost == field_cost(*field, pos.step(best)),
        decreases candidates@.len() - i,
    {
        let dir = candidates[i];
        let cost = cost_of(field, pos + dir);
        proof {
            let next = candidates@.subrange(0, i + 1);
            assert(next.drop_last() =~= candidates@.subrange(0, i as int));
            assert(next.last() == dir);
        }
        if cost < best_cost {
            best = dir;
            best_cost = cost;
        }
        i += 1;
    }
    assert(candidates@.subrange(0, i as int) =~= candidates@);
    Some(Control::Move(best))
}

/// The directions that lead from `pos` to a walkable cell, in the fixed order.
pub fn walkable_directions(ground: &Grid<Tile>, pos: Pos) -> (dirs: Vec<Direction>)
    requires
        ground.wf(),
        pos.within(i64::MAX - 1),
    ensures
        forall|dir: Direction| dirs@.contains(dir) <==> walkable(*ground, #[trigger] pos.step(dir)),
        dirs@.len() <= 4,
{
    let mut dirs: Vec<Direction> = Vec::new();
    let mut k: usize = 0;
    while k < 4
        invariant
            ground.wf(),
            pos.within(i64::MAX - 1),
            k <= 4,
            dirs@.len() <= k,
            forall|dir: Direction| dirs@.contains(dir) ==> walkable(*ground, #[trigger] pos.step(dir)),
            forall|j: int| 0 <= j < k && walkable(*ground, pos.step(#[trigger] Direction::all()[j])) ==> dirs@.contains(Direction::all()[j]),
        decreases 4 - k,
    {
        let dir = Direction::nth(k);
        let ghost before = dirs@;
        let open = match ground.get(pos + dir) {
            Some(tile) => !tile.blocking(),
            None => false,
        };
        if open {
            dirs.push(dir);
            proof {
                assert(dirs@[before.len() as int] == dir);
                assert forall|d: Direction| dirs@.contains(d) implies walkable(*ground, #[trigger] pos.step(d)) by {
                    let w = dirs@.index_of(d);
                    if w < before.len() {
                        assert(before[w] == d);
                    }
                }
                assert forall|j: int|
                    0 <= j < k + 1 && walkable(*ground, pos.step(#[trigger] Direction::all()[j])) implies
                    dirs@.contains(Direction::all()[j]) by {
                    if j < k {
                        let w = before.index_of(Direction::all()[j]);
                        assert(dirs@[w] == Direction::all()[j]);
                    }
                }
            }
        }
        k += 1;
    }
    proof {
        assert forall|dir: Direction| walkable(*ground, #[trigger] pos.step(dir)) implies dirs@.contains(dir) by {
            assert(dir == Direction::all()[0] || dir == Direction::all()[1] || dir == Direction::all()[2] || dir == Direction::all()[3]);
        }
    }
    dirs
}

/// Plans the tick of a monster, see `monster_plan_fits`. A monster
/// wanders in `deviation` of a hundred cases.
pub fn monster_plan(
    creature: &Creature,
    creatures: &Holder<Creature>,
    ground: &Grid<Tile>,
    field: &Grid<Option<usize>>,
    buildings: bool,
    deviation: Percentage,
    dice: &mut Dice,
) -> (plan: Option<Control>)
    requires
        ground.wf(),
        size_fits(ground.spec_size()),
        field.wf(),
        creatures.wf(),
        creature.wf(),
        ground.contains(creature.pos),
        forall|i: int| 0 <= i < creatures.items().len() ==> ground.contains((#[trigger] creatures.items()[i]).pos),
    ensures
        monster_plan_fits(*creature, creatures.items(), *ground, *field, buildings, deviation, plan),
        plan matches Some(control) ==> control.wf(),
{
    let target = find_target(creature, creatures, ground, buildings);
    let range = creature.range().0;
    match target {
        Some(target_pos) => {
            let dist = creature.pos.distance_to(target_pos);
            assert(creature.spec_weapon() matches Some(w) ==> w.wf()) by {
                if creature.spec_weapon() is Some {
                    assert(creature.weapons@[creature.selected_weapon as int].0.wf());
                }
            }
            if (range <= 5 && dist <= range) || dist * 11 <= range * 10 {
                return Some(Control::ShootPrecise(target_pos - creature.pos));
            }
        },
        None => {},
    }
    let mut dirs = walkable_directions(ground, creature.pos);
    let ghost listed = dirs@;
    dice.shuffle(&mut dirs);
    let wander = dice.chance(deviation);
    let plan = choose_step(&dirs, field, creature.pos, wander);
    proof {
        listed.to_multiset_ensures();
        dirs@.to_multiset_ensures();
        assert forall|dir: Direction| dirs@.contains(dir) <==> walkable(*ground, #[trigger] creature.pos.step(dir)) by {
            assert(dirs@.to_multiset().count(dir) == listed.to_multiset().count(dir));
            assert(dirs@.contains(dir) <==> listed.contains(dir));
        }
        if dirs@.len() > 0 {
            lemma_first_best(dirs@, *field, creature.pos);
            assert(dirs@.contains(dirs@[0]));
            if !wander {
                let d = first_best(dirs@, *field, creature.pos);
                assert forall|dir: Direction|
                    walkable(*ground, #[trigger] creature.pos.step(dir)) implies
                    field_cost(*field, creature.pos.step(d)) <= field_cost(*field, creature.pos.step(dir)) by {
                    let w = dirs@.index_of(dir);
                    assert(dirs@[w] == dir);
                }
            }
        } else {
            assert forall|dir: Direction| !walkable(*ground, #[trigger] creature.pos.step(dir)) by {
                assert(!dirs@.contains(dir));
            }
        }
    }
    plan
}

impl World {
    /// Whether `plan` is what the creature at place `i` may plan for the
    /// tick: what its player asks, and to end itself where the player is
    /// gone; what a monster plans, see `monster_plan_fits`; nothing for a pillar.
    pub open spec fn plan_fits(self, i: int, plan: Option<Control>) -> bool {
        let creature = self.creatures.items()[i];
        match creature.mind {
            Mind::Player(id) => plan == (match self.player_index(id) {
                Some(k) => self.players@[k].1.plan,
                None => Some(Control::Suicide),
            }),
            Mind::BloodThirst(deviation) => monster_plan_fits(
                creature,
                self.creatures.items(),
                self.ground,
                self.player_distances,
                false,
                deviation,
                plan,
            ),
            Mind::Destroyer => monster_plan_fits(
                creature,
                self.creatures.items(),
                self.ground,
                self.building_distances,
                true,
                Percentage(0),
                plan,
            ),
            Mind::Pillar => plan is None,
        }
    }

    /// Plans the tick of the creature at place `i`.
    pub fn creature_plan(&mut self, i: usize) -> (plan: Option<Control>)
        requires
            old(self).wf(),
            i < old(self).creatures.items().len(),
        ensures
            *final(self) == (World { dice: final(self).dice, ..*old(self) }),
            old(self).plan_fits(i as int, plan),
            plan matches Some(control) ==> control.wf(),
    {
        let creature = self.creatures.value_at(i);
        match creature.mind {
            Mind::Player(playerid) => {
                match self.find_player(playerid) {
                    Some(k) => {
                        proof {
                            let j = self.player_index(playerid).unwrap();
                            assert(self.players@[j].0 == playerid);
                            assert(j == k);
                        }
                        self.players[k].1.plan
                    },
                    None => Some(Control::Suicide),
                }
            },
            Mind::BloodThirst(deviation) => monster_plan(
                creature,
                &self.creatures,
                &self.ground,
                &self.player_distances,
                false,
                deviation,
                &mut self.dice,
            ),
            Mind::Destroyer => monster_plan(
                creature,
                &self.creatures,
                &self.ground,
                &self.building_distances,
                true,
                Percentage(0),
                &mut self.dice,
            ),
            Mind::Pillar => None,
        }
    }
}

} // verus!
