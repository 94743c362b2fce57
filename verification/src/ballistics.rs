use vstd::prelude::*;
use crate::creature::{Creature, Health};
use crate::dice::Dice;
use crate::grid::Grid;
use crate::holder::Holder;
use crate::pos::Pos;
use crate::posmap::PosMap;
use crate::sprite::Sprite;
use crate::tile::Tile;
use crate::weapon::{Bullet, Luck};
use crate::world::World;

verus! {

/// What a bullet meets on its cell.
#[derive(Debug, Clone, Copy, PartialEq, Eq, Structural)]
pub enum Impact {
    /// A hostile creature, by its key.
    Creature(usize),
    /// A tile that stops bullets.
    Tile,
    /// Nothing, with the bullet beyond its range.
    Spent,
    Nothing,
}

/// What the bullet meets on its cell: first of all a creature that the
/// map of taken cells names there, if its alignment is another; then a
/// tile that stops bullets; then the end of its range.
pub open spec fn spec_impact(bullet: Bullet, creatures: Holder<Creature>, ground: Grid<Tile>, occupancy: PosMap<usize>) -> Impact {
    if occupancy.lookup(bullet.pos) is Some && creatures.contains(occupancy.lookup(bullet.pos).unwrap())
        && creatures.value(occupancy.lookup(bullet.pos).unwrap()).alignment != bullet.alignment {
        Impact::Creature(occupancy.lookup(bullet.pos).unwrap())
    } else if ground.lookup(bullet.pos) is Some && ground.lookup(bullet.pos).unwrap().blocks_bullets() {
        Impact::Tile
    } else if bullet.spec_out_of_range() {
        Impact::Spent
    } else {
        Impact::Nothing
    }
}

/// The health that is left after `damage`, and the least there is where
/// that cannot be told.
pub open spec fn hurt_health(health: int, damage: int) -> int {
    if health - damage >= i64::MIN {
        health - damage
    } else {
        i64::MIN as int
    }
}

/// Whether the creatures `after` are the creatures `before` with some
/// of their health taken and nothing else changed.
pub open spec fn only_hurt(before: Holder<Creature>, after: Holder<Creature>) -> bool {
    &&& after.ids() == before.ids()
    &&& after.counter() == before.counter()
    &&& after.items().len() == before.items().len()
    &&& forall|k: int|
        0 <= k < before.items().len() ==> (#[trigger] after.items()[k]) == (Creature {
            health: after.items()[k].health,
            ..before.items()[k]
        }) && after.items()[k].health.0 <= before.items()[k].health.0
}

/// What the bullet meets on its cell, see `spec_impact`.
pub fn impact(bullet: &Bullet, creatures: &Holder<Creature>, ground: &Grid<Tile>, occupancy: &PosMap<usize>) -> (r: Impact)
    requires
        bullet.wf(),
        creatures.wf(),
        ground.wf(),
        occupancy.wf(),
    ensures
        r == spec_impact(*bullet, *creatures, *ground, *occupancy),
{
    match occupancy.get(bullet.pos) {
        Some(id) => {
            match creatures.get(id) {
                Some(creature) => {
                    if creature.alignment != bullet.alignment {
                        return Impact::Creature(*id);
                    }
                },
                None => {},
            }
        },
        None => {},
    }
    match ground.get(bullet.pos) {
        Some(tile) => {
            if tile.bullet_blocking() {
                return Impact::Tile;
            }
        },
        None => {},
    }
    if bullet.out_of_range() {
        Impact::Spent
    } else {
        Impact::Nothing
    }
}

/// Takes `damage` from the health of creature `id`, if there is such a creature.
pub fn hurt(creatures: &mut Holder<Creature>, id: usize, damage: Health)
    requires
        old(creatures).wf(),
        0 <= damage.0,
    ensures
        final(creatures).wf(),
        only_hurt(*old(creatures), *final(creatures)),
        old(creatures).contains(id) ==> final(creatures).value(id).health.0 == hurt_health(
            old(creatures).value(id).health.0 as int,
            damage.0 as int,
        ),
        forall|other: usize| other != id && old(creatures).contains(other) ==> final(creatures).value(other) == old(creatures).value(other),
{
    match creatures.get_mut(&id) {
        Some(creature) => {
            if creature.health.0 >= i64::MIN + damage.0 {
                creature.damage(damage);
            } else {
                creature.health.0 = i64::MIN;
            }
        },
        None => {},
    }
    proof {
        if old(creatures).contains(id) {
            let at = old(creatures).place(id);
            assert(old(creatures).ids()[at] == id);
            assert forall|other: usize|
                other != id && old(creatures).contains(other) implies
                creatures.value(other) == old(creatures).value(other) by {
                let w = old(creatures).place(other);
                assert(old(creatures).ids()[w] == other);
            }
        }
    }
}

/// Being hurt changes nothing of what a bullet meets.
pub proof fn lemma_impact_after_hurt(bullet: Bullet, before: Holder<Creature>, after: Holder<Creature>, ground: Grid<Tile>, occupancy: PosMap<usize>)
    requires
        before.wf(),
        only_hurt(before, after),
    ensures
        spec_impact(bullet, after, ground, occupancy) == spec_impact(bullet, before, ground, occupancy),
{
    if occupancy.lookup(bullet.pos) is Some {
        let id = occupancy.lookup(bullet.pos).unwrap();
        if before.contains(id) {
            let k = before.place(id);
            assert(before.ids()[k] == id);
            assert(after.items()[k].alignment == before.items()[k].alignment);
        }
    }
}

/// Being hurt twice is being hurt.
pub proof fn lemma_only_hurt_trans(a: Holder<Creature>, b: Holder<Creature>, c: Holder<Creature>)
    requires
        only_hurt(a, b),
        only_hurt(b, c),
    ensures
        only_hurt(a, c),
{
    assert forall|k: int|
        0 <= k < a.items().len() implies
        (#[trigger] c.items()[k]) == (Creature { health: c.items()[k].health, ..a.items()[k] }) && c.items()[k].health.0 <= a.items()[k].health.0 by {
        assert(b.items()[k] == (Creature { health: b.items()[k].health, ..a.items()[k] }));
    }
}

/// Whether `after` can be the bullet `before` a tick later: the same
/// but for its cell and its steps, of which it has made as many more as
/// its speed; a bullet without direction makes none.
pub open spec fn flown(before: Bullet, after: Bullet) -> bool {
    &&& after.ammo == before.ammo
    &&& after.alignment == before.alignment
    &&& after.direction == before.direction
    &&& after.travelled() == before.travelled() + (if before.direction == (Pos { x: 0, y: 0 }) {
        0int
    } else {
        before.ammo.speed as int
    })
}

/// Whether `particle` is the sprite of one of the bullets.
pub open spec fn trails(bullets: Seq<Bullet>, particle: Option<Sprite>) -> bool {
    exists|j: int| 0 <= j < bullets.len() && particle == Some((#[trigger] bullets[j]).spec_sprite())
}

/// Whether `after` can be one of the bullets `before` a tick later.
pub open spec fn descends(before: Seq<Bullet>, after: Bullet) -> bool {
    exists|j: int| 0 <= j < before.len() && flown(#[trigger] before[j], after)
}

/// Where a bullet that has met nothing so far ends its tick and what it
/// meets there, from sub-step `k` on: it moves with the luck of each
/// sub-step until it meets something.
pub open spec fn flight_from(
    b: Bullet,
    luck: Seq<Luck>,
    k: int,
    creatures: Holder<Creature>,
    ground: Grid<Tile>,
    occupancy: PosMap<usize>,
) -> (Bullet, Impact)
    decreases luck.len() - k,
{
    if k < 0 || k >= luck.len() {
        (b, Impact::Nothing)
    } else {
        let next = b.moved(luck[k].sway, luck[k].coin);
        let met = spec_impact(next, creatures, ground, occupancy);
        if met != Impact::Nothing {
            (next, met)
        } else {
            flight_from(next, luck, k + 1, creatures, ground, occupancy)
        }
    }
}

/// Where a bullet ends its tick and what it meets there: what it meets
/// on its cell before it moves, or else on its way, see `flight_from`.
pub open spec fn flight(
    b: Bullet,
    luck: Seq<Luck>,
    creatures: Holder<Creature>,
    ground: Grid<Tile>,
    occupancy: PosMap<usize>,
) -> (Bullet, Impact) {
    if spec_impact(b, creatures, ground, occupancy) != Impact::Nothing {
        (b, spec_impact(b, creatures, ground, occupancy))
    } else {
        flight_from(b, luck, 0, creatures, ground, occupancy)
    }
}

/// The particles that a bullet leaves from sub-step `k` on, added to
/// `particles`: its sprite on every cell that it comes to, the one on
/// which it meets something included.
pub open spec fn trail_from(
    b: Bullet,
    luck: Seq<Luck>,
    k: int,
    creatures: Holder<Creature>,
    ground: Grid<Tile>,
    occupancy: PosMap<usize>,
    particles: Map<Pos, Sprite>,
) -> Map<Pos, Sprite>
    decreases luck.len() - k,
{
    if k < 0 || k >= luck.len() {
        particles
    } else {
        let next = b.moved(luck[k].sway, luck[k].coin);
        let marked = particles.insert(next.pos, next.spec_sprite());
        if spec_impact(next, creatures, ground, occupancy) != Impact::Nothing {
            marked
        } else {
            trail_from(next, luck, k + 1, creatures, ground, occupancy, marked)
        }
    }
}

/// The particles after the flight of a bullet: those that were there,
/// and its sprite on every cell that it has come to. A bullet that meets
/// something where it is leaves none.
pub open spec fn trail(
    b: Bullet,
    luck: Seq<Luck>,
    creatures: Holder<Creature>,
    ground: Grid<Tile>,
    occupancy: PosMap<usize>,
    particles: Map<Pos, Sprite>,
) -> Map<Pos, Sprite> {
    if spec_impact(b, creatures, ground, occupancy) != Impact::Nothing {
        particles
    } else {
        trail_from(b, luck, 0, creatures, ground, occupancy, particles)
    }
}

/// Being hurt changes nothing of the particles that a bullet leaves on its way.
pub proof fn lemma_trail_from_after_hurt(
    b: Bullet,
    luck: Seq<Luck>,
    k: int,
    before: Holder<Creature>,
    after: Holder<Creature>,
    ground: Grid<Tile>,
    occupancy: PosMap<usize>,
    particles: Map<Pos, Sprite>,
)
    requires
        before.wf(),
        only_hurt(before, after),
    ensures
        trail_from(b, luck, k, after, ground, occupancy, particles) == trail_from(b, luck, k, before, ground, occupancy, particles),
    decreases luck.len() - k,
{
    if 0 <= k < luck.len() {
        let next = b.moved(luck[k].sway, luck[k].coin);
        lemma_impact_after_hurt(next, before, after, ground, occupancy);
        lemma_trail_from_after_hurt(next, luck, k + 1, before, after, ground, occupancy, particles.insert(next.pos, next.spec_sprite()));
    }
}

/// Being hurt changes nothing of the particles that a bullet leaves.
pub proof fn lemma_trail_after_hurt(
    b: Bullet,
    luck: Seq<Luck>,
    before: Holder<Creature>,
    after: Holder<Creature>,
    ground: Grid<Tile>,
    occupancy: PosMap<usize>,
    particles: Map<Pos, Sprite>,
)
    requires
        before.wf(),
        only_hurt(before, after),
    ensures
        trail(b, luck, after, ground, occupancy, particles) == trail(b, luck, before, ground, occupancy, particles),
{
    lemma_impact_after_hurt(b, before, after, ground, occupancy);
    lemma_trail_from_after_hurt(b, luck, 0, before, after, ground, occupancy, particles);
}

/// Being hurt changes nothing of the way of a bullet.
pub proof fn lemma_flight_from_after_hurt(
    b: Bullet,
    luck: Seq<Luck>,
    k: int,
    before: Holder<Creature>,
    after: Holder<Creature>,
    ground: Grid<Tile>,
    occupancy: PosMap<usize>,
)
    requires
        before.wf(),
        only_hurt(before, after),
    ensures
        flight_from(b, luck, k, after, ground, occupancy) == flight_from(b, luck, k, before, ground, occupancy),
    decreases luck.len() - k,
{
    if 0 <= k < luck.len() {
        let next = b.moved(luck[k].sway, luck[k].coin);
        lemma_impact_after_hurt(next, before, after, ground, occupancy);
        lemma_flight_from_after_hurt(next, luck, k + 1, before, after, ground, occupancy);
    }
}

/// Being hurt changes nothing of the flight of a bullet.
pub proof fn lemma_flight_after_hurt(
    b: Bullet,
    luck: Seq<Luck>,
    before: Holder<Creature>,
    after: Holder<Creature>,
    ground: Grid<Tile>,
    occupancy: PosMap<usize>,
)
    requires
        before.wf(),
        only_hurt(before, after),
    ensures
        flight(b, luck, after, ground, occupancy) == flight(b, luck, before, ground, occupancy),
{
    lemma_impact_after_hurt(b, before, after, ground, occupancy);
    lemma_flight_from_after_hurt(b, luck, 0, before, after, ground, occupancy);
}

/// Lets a bullet fly for one tick with the luck given for its
/// sub-steps: as many sub-steps as its speed, and one before them in which
/// it does not move. In each of the others it leaves its sprite as a
/// particle on the cell it comes to, see `trail`. It ends where it meets
/// something: it hurts a hostile creature, or is stopped by a tile, or is
/// spent. The bullet comes back as it ends the tick, with what it has met.
pub fn fly_with(
    bullet: Bullet,
    luck: &Vec<Luck>,
    creatures: &mut Holder<Creature>,
    ground: &Grid<Tile>,
    occupancy: &PosMap<usize>,
    particles: &mut PosMap<Sprite>,
) -> (r: (Bullet, Impact))
    requires
        bullet.wf(),
        luck@.len() == bullet.ammo.speed,
        old(creatures).wf(),
        ground.wf(),
        occupancy.wf(),
        old(particles).wf(),
    ensures
        r == flight(bullet, luck@, *old(creatures), *ground, *occupancy),
        final(creatures).wf(),
        only_hurt(*old(creatures), *final(creatures)),
        match r.1 {
            Impact::Creature(id) => old(creatures).contains(id) && final(creatures).value(id).health.0 == hurt_health(
                old(creatures).value(id).health.0 as int,
                bullet.ammo.damage.0 as int,
            ) && forall|other: usize|
                other != id && old(creatures).contains(other) ==> final(creatures).value(other) == old(creatures).value(other),
            _ => *final(creatures) == *old(creatures),
        },
        final(particles).wf(),
        final(particles).to_map() == trail(bullet, luck@, *old(creatures), *ground, *occupancy, old(particles).to_map()),
        forall|p: Pos| old(particles).contains(p) ==> #[trigger] final(particles).contains(p),
        forall|p: Pos|
            #[trigger] final(particles).lookup(p) == old(particles).lookup(p) || final(particles).lookup(p) == Some(
                bullet.spec_sprite(),
            ),
        r.1 == Impact::Nothing ==> r.0.wf() && flown(bullet, r.0) && spec_impact(r.0, *final(creatures), *ground, *occupancy)
            == Impact::Nothing,
{
    let first = impact(&bullet, creatures, ground, occupancy);
    match first {
        Impact::Creature(id) => {
            hurt(creatures, id, bullet.ammo.damage);
            return (bullet, first);
        },
        Impact::Tile => {
            proof {
                lemma_only_hurt_refl(*creatures);
            }
            return (bullet, first);
        },
        Impact::Spent => {
            proof {
                lemma_only_hurt_refl(*creatures);
            }
            return (bullet, first);
        },
        Impact::Nothing => {},
    }
    let mut b = bullet;
    let mut k: usize = 0;
    while k < luck.len()
        invariant
            k <= luck@.len(),
            luck@.len() == bullet.ammo.speed,
            b.wf(),
            b.ammo == bullet.ammo,
            b.alignment == bullet.alignment,
            b.direction == bullet.direction,
            b.travelled() == bullet.travelled() + (if bullet.direction == (Pos { x: 0, y: 0 }) {
                0int
            } else {
                k as int
            }),
            *creatures == *old(creatures),
            creatures.wf(),
            ground.wf(),
            occupancy.wf(),
            particles.wf(),
            forall|p: Pos| old(particles).contains(p) ==> #[trigger] particles.contains(p),
            forall|p: Pos|
                #[trigger] particles.lookup(p) == old(particles).lookup(p) || particles.lookup(p) == Some(
                    bullet.spec_sprite(),
                ),
            spec_impact(b, *creatures, *ground, *occupancy) == Impact::Nothing,
            flight_from(b, luck@, k as int, *creatures, *ground, *occupancy) == flight(
                bullet,
                luck@,
                *creatures,
                *ground,
                *occupancy,
            ),
            trail_from(b, luck@, k as int, *creatures, *ground, *occupancy, particles.to_map()) == trail(
                bullet,
                luck@,
                *creatures,
                *ground,
                *occupancy,
                old(particles).to_map(),
            ),
        decreases luck@.len() - k,
    {
        let ghost was = b;
        proof {
            was.lemma_moved_wf(luck@[k as int].sway, luck@[k as int].coin);
        }
        b.step_with(luck[k]);
        let ghost before = *particles;
        particles.insert(b.pos, b.sprite());
        proof {
            assert forall|p: Pos| old(particles).contains(p) implies #[trigger] particles.contains(p) by {
                assert(before.contains(p));
                if p != b.pos {
                    assert(particles.lookup(p) == before.lookup(p));
                }
            }
            assert(b.spec_sprite() == bullet.spec_sprite());
            assert forall|p: Pos|
                #[trigger] particles.lookup(p) == old(particles).lookup(p) || particles.lookup(p) == Some(bullet.spec_sprite()) by {
                if p != b.pos {
                    assert(particles.lookup(p) == before.lookup(p));
                }
            }
        }
        let met = impact(&b, creatures, ground, occupancy);
        match met {
            Impact::Creature(id) => {
                hurt(creatures, id, b.ammo.damage);
                return (b, met);
            },
            Impact::Tile => {
                proof {
                    lemma_only_hurt_refl(*creatures);
                }
                return (b, met);
            },
            Impact::Spent => {
                proof {
                    lemma_only_hurt_refl(*creatures);
                }
                return (b, met);
            },
            Impact::Nothing => {},
        }
        k += 1;
    }
    proof {
        lemma_only_hurt_refl(*creatures);
    }
    (b, Impact::Nothing)
}

/// The luck for the sub-steps of a bullet of the given speed.
pub fn draw_luck(speed: i64, dice: &mut Dice) -> (luck: Vec<Luck>)
    requires
        0 <= speed,
    ensures
        luck@.len() == speed,
{
    let mut luck: Vec<Luck> = Vec::new();
    let mut k: i64 = 0;
    while k < speed
        invariant
            0 <= k <= speed,
            luck@.len() == k,
        decreases speed - k,
    {
        luck.push(Luck::draw(dice));
        k += 1;
    }
    luck
}

/// The bullet that is left of a flight: the one that has met nothing.
pub open spec fn survivor(end: (Bullet, Impact)) -> Option<Bullet> {
    if end.1 == Impact::Nothing {
        Some(end.0)
    } else {
        None
    }
}

/// The bullets that are left when the bullets fly one after the other,
/// each with its luck.
pub open spec fn survivors(
    bullets: Seq<Bullet>,
    lucks: Seq<Seq<Luck>>,
    creatures: Holder<Creature>,
    ground: Grid<Tile>,
    occupancy: PosMap<usize>,
) -> Seq<Bullet>
    decreases bullets.len(),
{
    if bullets.len() == 0 || lucks.len() == 0 {
        Seq::empty()
    } else {
        let rest = survivors(bullets.drop_last(), lucks.drop_last(), creatures, ground, occupancy);
        match survivor(flight(bullets.last(), lucks.last(), creatures, ground, occupancy)) {
            Some(b) => rest.push(b),
            None => rest,
        }
    }
}

/// The health that is left to creature `id` when the bullets fly one
/// after the other, each with its luck, and those that meet it hurt it.
pub open spec fn wounded(
    health: int,
    id: usize,
    bullets: Seq<Bullet>,
    lucks: Seq<Seq<Luck>>,
    creatures: Holder<Creature>,
    ground: Grid<Tile>,
    occupancy: PosMap<usize>,
) -> int
    decreases bullets.len(),
{
    if bullets.len() == 0 || lucks.len() == 0 {
        health
    } else {
        let rest = wounded(health, id, bullets.drop_last(), lucks.drop_last(), creatures, ground, occupancy);
        if flight(bullets.last(), lucks.last(), creatures, ground, occupancy).1 == Impact::Creature(id) {
            hurt_health(rest, bullets.last().ammo.damage.0 as int)
        } else {
            rest
        }
    }
}

/// The particles after the bullets have flown one after the other,
/// each with its luck: those that were there, and the trail of each
/// bullet, see `trail`; where two meet the later one shows.
pub open spec fn trail_of_all(
    bullets: Seq<Bullet>,
    lucks: Seq<Seq<Luck>>,
    creatures: Holder<Creature>,
    ground: Grid<Tile>,
    occupancy: PosMap<usize>,
    particles: Map<Pos, Sprite>,
) -> Map<Pos, Sprite>
    decreases bullets.len(),
{
    if bullets.len() == 0 || lucks.len() == 0 {
        particles
    } else {
        trail(
            bullets.last(),
            lucks.last(),
            creatures,
            ground,
            occupancy,
            trail_of_all(bullets.drop_last(), lucks.drop_last(), creatures, ground, occupancy, particles),
        )
    }
}

/// Creatures that are left alone are not hurt much.
pub proof fn lemma_only_hurt_refl(a: Holder<Creature>)
    requires
        a.wf(),
    ensures
        only_hurt(a, a),
{
}

impl World {
    /// Whether the bullets, the particles and the health of the
    /// creatures are what the flight of the bullets of `before` leaves, one
    /// bullet after the other and each with its luck: the bullets that
    /// have met nothing, their trails, and the health that the hits have
    /// left.
    pub open spec fn volleyed(self, before: World, occupancy: PosMap<usize>, lucks: Seq<Seq<Luck>>) -> bool {
        &&& lucks.len() == before.bullets@.len()
        &&& forall|j: int| 0 <= j < lucks.len() ==> (#[trigger] lucks[j]).len() == before.bullets@[j].ammo.speed
        &&& self.bullets@ == survivors(before.bullets@, lucks, before.creatures, before.ground, occupancy)
        &&& self.particles.to_map() == trail_of_all(
            before.bullets@,
            lucks,
            before.creatures,
            before.ground,
            occupancy,
            before.particles.to_map(),
        )
        &&& forall|k: int|
            0 <= k < before.creatures.items().len() ==> (#[trigger] self.creatures.items()[k]).health.0 == wounded(
                before.creatures.items()[k].health.0 as int,
                before.creatures.ids()[k],
                before.bullets@,
                lucks,
                before.creatures,
                before.ground,
                occupancy,
            )
    }

    /// The second part of a tick: every bullet flies, in the order of
    /// the list, and the bullets that meet nothing make up the new list;
    /// see `volleyed`. After it no bullet is on a tile that stops
    /// bullets, or beyond its range, or on a cell for which the map of
    /// taken cells names a hostile creature.
    pub fn update_bullets(&mut self, occupancy: &PosMap<usize>)
        requires
            old(self).wf(),
            occupancy.wf(),
        ensures
            final(self).wf(),
            exists|lucks: Seq<Seq<Luck>>| #[trigger] final(self).volleyed(*old(self), *occupancy, lucks),
            *final(self) == (World {
                creatures: final(self).creatures,
                bullets: final(self).bullets,
                particles: final(self).particles,
                dice: final(self).dice,
                ..*old(self)
            }),
            only_hurt(old(self).creatures, final(self).creatures),
            final(self).bullets@.len() <= old(self).bullets@.len(),
            forall|k: int| 0 <= k < final(self).bullets@.len() ==> descends(old(self).bullets@, #[trigger] final(self).bullets@[k]),
            forall|k: int|
                0 <= k < final(self).bullets@.len() ==> spec_impact(
                    #[trigger] final(self).bullets@[k],
                    final(self).creatures,
                    final(self).ground,
                    *occupancy,
                ) == Impact::Nothing,
            forall|p: Pos| old(self).particles.contains(p) ==> #[trigger] final(self).particles.contains(p),
            forall|p: Pos|
                #[trigger] final(self).particles.lookup(p) == old(self).particles.lookup(p) || trails(
                    old(self).bullets@,
                    final(self).particles.lookup(p),
                ),
    {
        let mut flying: Vec<Bullet> = Vec::new();
        core::mem::swap(&mut self.bullets, &mut flying);
        let n = flying.len();
        let mut i: usize = 0;
        let ghost mut lucks: Seq<Seq<Luck>> = Seq::empty();
        proof {
            lemma_only_hurt_refl(self.creatures);
        }
        while i < n
            invariant
                i <= n,
                n == flying@.len(),
                flying@ == old(self).bullets@,
                old(self).wf(),
                occupancy.wf(),
                *self == (World {
                    creatures: self.creatures,
                    bullets: self.bullets,
                    particles: self.particles,
                    dice: self.dice,
                    ..*old(self)
                }),
                self.creatures.wf(),
                only_hurt(old(self).creatures, self.creatures),
                lucks.len() == i,
                forall|j: int| 0 <= j < i ==> (#[trigger] lucks[j]).len() == flying@[j].ammo.speed,
                self.bullets@ == survivors(
                    flying@.subrange(0, i as int),
                    lucks,
                    old(self).creatures,
                    old(self).ground,
                    *occupancy,
                ),
                forall|k: int|
                    0 <= k < old(self).creatures.items().len() ==> (#[trigger] self.creatures.items()[k]).health.0 == wounded(
                        old(self).creatures.items()[k].health.0 as int,
                        old(self).creatures.ids()[k],
                        flying@.subrange(0, i as int),
                        lucks,
                        old(self).creatures,
                        old(self).ground,
                        *occupancy,
                    ),
                self.particles.wf(),
                self.particles.to_map() == trail_of_all(
                    flying@.subrange(0, i as int),
                    lucks,
                    old(self).creatures,
                    old(self).ground,
                    *occupancy,
                    old(self).particles.to_map(),
                ),
                self.bullets@.len() <= i,
                forall|k: int| 0 <= k < self.bullets@.len() ==> descends(flying@, #[trigger] self.bullets@[k]),
                forall|k: int| 0 <= k < self.bullets@.len() ==> (#[trigger] self.bullets@[k]).wf(),
                forall|k: int|
                    0 <= k < self.bullets@.len() ==> spec_impact(
                        #[trigger] self.bullets@[k],
                        self.creatures,
                        self.ground,
                        *occupancy,
                    ) == Impact::Nothing,
                forall|p: Pos| old(self).particles.contains(p) ==> #[trigger] self.particles.contains(p),
                forall|p: Pos|
                    #[trigger] self.particles.lookup(p) == old(self).particles.lookup(p) || trails(
                        flying@,
                        self.particles.lookup(p),
                    ),
            decreases n - i,
        {
            let bullet = flying[i];
            let ghost before = *self;
            assert(bullet.wf());
            let luck = draw_luck(bullet.ammo.speed, &mut self.dice);
            let (end, met) = fly_with(bullet, &luck, &mut self.creatures, &self.ground, occupancy, &mut self.particles);
            let survivor = match met {
                Impact::Nothing => Some(end),
                _ => None,
            };
            proof {
                let c0 = old(self).creatures;
                let g = old(self).ground;
                let head = flying@.subrange(0, i as int);
                let next = flying@.subrange(0, i + 1);
                let more = lucks.push(luck@);
                assert(next.drop_last() =~= head);
                assert(next.last() == bullet);
                assert(more.drop_last() =~= lucks);
                assert(more.last() == luck@);
                lemma_flight_after_hurt(bullet, luck@, c0, before.creatures, g, *occupancy);
                lemma_trail_after_hurt(bullet, luck@, c0, before.creatures, g, *occupancy, before.particles.to_map());
                assert((end, met) == flight(bullet, luck@, c0, g, *occupancy));
                assert(self.particles.to_map() == trail_of_all(next, more, c0, g, *occupancy, old(self).particles.to_map()));
                assert forall|k: int|
                    0 <= k < c0.items().len() implies
                    (#[trigger] self.creatures.items()[k]).health.0 == wounded(c0.items()[k].health.0 as int, c0.ids()[k], next, more, c0, g, *occupancy) by {
                    before.creatures.lemma_place(k);
                    self.creatures.lemma_place(k);
                    assert(before.creatures.items()[k].health.0 == wounded(c0.items()[k].health.0 as int, c0.ids()[k], head, lucks, c0, g, *occupancy));
                }
                lucks = more;
            }
            proof {
                lemma_only_hurt_trans(old(self).creatures, before.creatures, self.creatures);
                assert forall|k: int|
                    0 <= k < self.bullets@.len() implies
                    spec_impact(#[trigger] self.bullets@[k], self.creatures, self.ground, *occupancy) == Impact::Nothing by {
                    lemma_impact_after_hurt(self.bullets@[k], before.creatures, self.creatures, self.ground, *occupancy);
                }
                assert forall|p: Pos| old(self).particles.contains(p) implies #[trigger] self.particles.contains(p) by {
                    assert(before.particles.contains(p));
                }
                assert forall|p: Pos| #[trigger] self.particles.lookup(p) == old(self).particles.lookup(p) || trails(flying@, self.particles.lookup(p)) by {
                    if self.particles.lookup(p) != before.particles.lookup(p) {
                        assert(self.particles.lookup(p) == Some(flying@[i as int].spec_sprite()));
                    } else {
                        assert(before.particles.lookup(p) == old(self).particles.lookup(p) || trails(flying@, before.particles.lookup(p)));
                    }
                }
            }
            let ghost kept = self.bullets@;
            match survivor {
                Some(b) => {
                    self.bullets.push(b);
                },
                None => {},
            }
            proof {
                assert forall|k: int|
                    0 <= k < self.bullets@.len() implies
                    descends(flying@, #[trigger] self.bullets@[k]) by {
                    if k < kept.len() {
                        assert(self.bullets@[k] == kept[k]);
                    } else {
                        assert(flown(flying@[i as int], self.bullets@[k]));
                    }
                }
            }
            i += 1;
        }
        proof {
            self.lemma_hurt_keeps_wf(*old(self));
            assert(flying@.subrange(0, n as int) =~= flying@);
            assert(self.volleyed(*old(self), *occupancy, lucks));
        }
    }

    /// The world stays well formed when creatures are hurt, bullets
    /// that are well formed replace the others, and particles come.
    pub proof fn lemma_hurt_keeps_wf(self, before: World)
        requires
            before.wf(),
            self == (World {
                creatures: self.creatures,
                bullets: self.bullets,
                particles: self.particles,
                dice: self.dice,
                ..before
            }),
            self.creatures.wf(),
            only_hurt(before.creatures, self.creatures),
            self.particles.wf(),
            forall|k: int| 0 <= k < self.bullets@.len() ==> (#[trigger] self.bullets@[k]).wf(),
        ensures
            self.wf(),
    {
        assert forall|k: int|
            0 <= k < self.creatures.items().len() implies
            (#[trigger] self.creatures.items()[k]).wf() && self.ground.contains(self.creatures.items()[k].pos) by {
            let a = before.creatures.items()[k];
            let b = self.creatures.items()[k];
            assert(a.wf());
            assert(b == (Creature { health: b.health, ..a }));
        }
    }
}

} // verus!
