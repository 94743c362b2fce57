use vstd::prelude::*;
use crate::creature::{Alignment, Health};
use crate::dice::Dice;
use crate::pos::{Distance, GRID_LIMIT, Pos};
use crate::sprite::Sprite;
use crate::timestamp::Duration;
use crate::util::{abs, Percentage, signum, spec_abs, spec_signum};

verus! {

/// The largest magnitude a coordinate of a bullet's direction can have:
/// a hundred times an aim within `GRID_LIMIT`, and a scatter of at most a
/// hundred times the aim's length added to it.
pub const SCATTER_LIMIT: i64 = 314572800;

/// The one or two sprites of a kind of ammunition. Of two, the first shows a
/// bullet that flies rather up or down, the second one that flies rather sideways.
#[derive(Debug, Clone, Copy, PartialEq, Eq)]
pub enum AmmoSprites {
    One(Sprite),
    Two(Sprite, Sprite),
}

#[derive(Debug, Clone, Copy, PartialEq, Eq)]
pub struct Ammo {
    pub damage: Health,
    pub range: Distance,
    pub sprites: AmmoSprites,
    pub speed: i64,
    pub spreading: bool,
}

impl Ammo {
    /// Damage never heals, the range is not negative, a bullet advances at
    /// least once in a tick, and range and speed stay within the limit of
    /// the grid.
    pub open spec fn wf(self) -> bool {
        &&& 0 <= self.damage.0
        &&& 0 <= self.range.0 <= GRID_LIMIT
        &&& 1 <= self.speed <= GRID_LIMIT
    }
}

#[derive(Debug, Clone, Copy, PartialEq, Eq)]
pub struct Weapon {
    pub cooldown: Duration,
    pub ammo: Ammo,
    pub nbullets: usize,
    pub spread: Percentage,
    pub name: &'static str,
}

/// Whether a step along `y` is due for a direction with `0 <= dir.y <= dir.x`
/// after `steps` steps along the two axes.
pub open spec fn spec_octant_move_y(dir: Pos, steps: Pos) -> bool {
    dir.y * steps.x > steps.y * dir.x + dir.x / 2
}

/// Whether a step along `y` is due for a direction with both coordinates
/// non-negative. Where `y` outweighs `x` the question is asked of the mirror
/// image and the answer turned around; `coin` decides on which side an exact
/// diagonal falls.
pub open spec fn spec_quadrant_move_y(dir: Pos, steps: Pos, coin: bool) -> bool {
    if dir.y > dir.x || (dir.x == dir.y && coin) {
        !spec_octant_move_y(Pos { x: dir.y, y: dir.x }, Pos { x: steps.y, y: steps.x })
    } else {
        spec_octant_move_y(dir, steps)
    }
}

pub fn octant_move_y(dir: Pos, steps: Pos) -> (r: bool)
    requires
        0 <= dir.x <= SCATTER_LIMIT,
        0 <= dir.y <= SCATTER_LIMIT,
        0 <= steps.x <= GRID_LIMIT + 1,
        0 <= steps.y <= GRID_LIMIT + 1,
    ensures
        r == spec_octant_move_y(dir, steps),
{
    assert(0 <= dir.y * steps.x <= SCATTER_LIMIT * (GRID_LIMIT + 1)) by (nonlinear_arith)
        requires
            0 <= dir.y <= SCATTER_LIMIT,
            0 <= steps.x <= GRID_LIMIT + 1,
    ;
    assert(0 <= steps.y * dir.x <= SCATTER_LIMIT * (GRID_LIMIT + 1)) by (nonlinear_arith)
        requires
            0 <= dir.x <= SCATTER_LIMIT,
            0 <= steps.y <= GRID_LIMIT + 1,
    ;
    dir.y * steps.x > steps.y * dir.x + dir.x / 2
}

pub fn quadrant_move_y(dir: Pos, steps: Pos, coin: bool) -> (r: bool)
    requires
        0 <= dir.x <= SCATTER_LIMIT,
        0 <= dir.y <= SCATTER_LIMIT,
        0 <= steps.x <= GRID_LIMIT + 1,
        0 <= steps.y <= GRID_LIMIT + 1,
    ensures
        r == spec_quadrant_move_y(dir, steps, coin),
{
    if dir.y > dir.x || (dir.x == dir.y && coin) {
        !octant_move_y(Pos::new(dir.y, dir.x), Pos::new(steps.y, steps.x))
    } else {
        octant_move_y(dir, steps)
    }
}

/// For a direction that is not zero, the axis that is stepped along is one
/// on which the direction has a part.
pub proof fn lemma_step_axis(dir: Pos, steps: Pos, coin: bool)
    requires
        0 <= dir.x,
        0 <= dir.y,
        0 <= steps.x,
        0 <= steps.y,
        dir.x != 0 || dir.y != 0,
    ensures
        spec_quadrant_move_y(dir, steps, coin) ==> dir.y > 0,
        !spec_quadrant_move_y(dir, steps, coin) ==> dir.x > 0,
{
    assert(steps.x * dir.y >= 0) by (nonlinear_arith)
        requires
            0 <= steps.x,
            0 <= dir.y,
    ;
    assert(steps.y * dir.x >= 0) by (nonlinear_arith)
        requires
            0 <= steps.y,
            0 <= dir.x,
    ;
    assert(dir.x == 0 ==> dir.x * steps.y == 0) by (nonlinear_arith);
    assert(dir.y == 0 ==> dir.y * steps.x == 0) by (nonlinear_arith);
}

impl Weapon {
    pub open spec fn wf(self) -> bool {
        &&& self.ammo.wf()
        &&& self.spread.wf()
        &&& 0 <= self.cooldown.0
    }

    /// How far a coordinate of a bullet's direction may lie from a hundred
    /// times the aim.
    pub open spec fn deviation(self, aim: Pos) -> int {
        self.spread.0 * aim.l1()
    }

    /// Whether `direction` is one that a bullet may get when the weapon is
    /// fired along `aim`: the aim itself where the weapon does not spread,
    /// else a hundred times the aim with each coordinate off by at most the
    /// deviation.
    pub open spec fn aimed(self, aim: Pos, direction: Pos) -> bool {
        if self.spread.0 != 0 {
            &&& -self.deviation(aim) <= direction.x - 100 * aim.x <= self.deviation(aim)
            &&& -self.deviation(aim) <= direction.y - 100 * aim.y <= self.deviation(aim)
        } else {
            direction == aim
        }
    }

    /// Whether `bullet` is one that a shot from `pos` along `aim` may give.
    pub open spec fn fired(self, pos: Pos, aim: Pos, alignment: Alignment, bullet: Bullet) -> bool {
        &&& bullet.pos == pos
        &&& bullet.alignment == alignment
        &&& bullet.ammo == self.ammo
        &&& bullet.steps == (Pos { x: 0, y: 0 })
        &&& self.aimed(aim, bullet.direction)
    }

    /// The direction of a spread bullet: a hundred times the aim, off by `jitter`.
    pub fn scatter(aim: Pos, jitter: Pos) -> (r: Pos)
        requires
            aim.within(GRID_LIMIT as int),
            jitter.within(200 * GRID_LIMIT),
        ensures
            r.x == 100 * aim.x + jitter.x,
            r.y == 100 * aim.y + jitter.y,
    {
        aim * 100 + jitter
    }

    /// Fires the weapon once: `nbullets` bullets that start at `pos`.
    pub fn shoot(&self, pos: Pos, direction: Pos, alignment: Alignment, dice: &mut Dice) -> (bullets: Vec<Bullet>)
        requires
            self.wf(),
            direction.within(GRID_LIMIT as int),
        ensures
            bullets@.len() == self.nbullets,
            forall|i: int| 0 <= i < bullets@.len() ==> self.fired(pos, direction, alignment, #[trigger] bullets@[i]),
            forall|i: int| 0 <= i < bullets@.len() ==> (#[trigger] bullets@[i]).direction.within(SCATTER_LIMIT as int),
    {
        let size = direction.size();
        assert(0 <= self.spread.0 * size <= 200 * GRID_LIMIT) by (nonlinear_arith)
            requires
                0 <= self.spread.0 <= 100,
                0 <= size <= 2 * GRID_LIMIT,
        ;
        let deviation = self.spread.0 * size;
        let mut bullets: Vec<Bullet> = Vec::new();
        let mut i: usize = 0;
        while i < self.nbullets
            invariant
                self.wf(),
                direction.within(GRID_LIMIT as int),
                deviation == self.deviation(direction),
                0 <= deviation <= 200 * GRID_LIMIT,
                i <= self.nbullets,
                bullets@.len() == i,
                forall|k: int| 0 <= k < bullets@.len() ==> self.fired(pos, direction, alignment, #[trigger] bullets@[k]),
                forall|k: int| 0 <= k < bullets@.len() ==> (#[trigger] bullets@[k]).direction.within(SCATTER_LIMIT as int),
            decreases self.nbullets - i,
        {
            let dir = if self.spread.0 != 0 {
                let jx = dice.roll(-deviation, deviation);
                let jy = dice.roll(-deviation, deviation);
                Weapon::scatter(direction, Pos::new(jx, jy))
            } else {
                direction
            };
            bullets.push(Bullet { direction: dir, pos, alignment, ammo: self.ammo, steps: Pos::new(0, 0) });
            i += 1;
        }
        bullets
    }

    pub fn get_range(&self) -> (r: Distance)
        ensures
            r == self.ammo.range,
    {
        self.ammo.range
    }

    pub fn get_cooldown(&self) -> (r: Duration)
        ensures
            r == self.cooldown,
    {
        self.cooldown
    }

    pub open spec fn spec_bite(damage: Health, cooldown: Duration) -> Weapon {
        Weapon {
            cooldown,
            nbullets: 1,
            spread: Percentage(0),
            name: "Bite",
            ammo: Ammo {
                damage,
                range: Distance(1),
                speed: 2,
                sprites: AmmoSprites::One(Sprite::Custom("bite")),
                spreading: false,
            },
        }
    }

    pub open spec fn spec_cast(damage: Health, range: Distance, cooldown: Duration) -> Weapon {
        Weapon {
            cooldown,
            nbullets: 1,
            spread: Percentage(0),
            name: "Cast",
            ammo: Ammo {
                damage,
                range,
                speed: 1,
                sprites: AmmoSprites::One(Sprite::Custom("bullet")),
                spreading: false,
            },
        }
    }

    pub open spec fn spec_spit(
        damage: Health,
        range: Distance,
        nbullets: usize,
        spread: Percentage,
        cooldown: Duration,
    ) -> Weapon {
        Weapon {
            cooldown,
            nbullets,
            spread,
            name: "Spit",
            ammo: Ammo {
                damage,
                range,
                speed: 1,
                sprites: AmmoSprites::One(Sprite::Custom("spit")),
                spreading: false,
            },
        }
    }

    pub open spec fn spec_smg() -> Weapon {
        Weapon {
            cooldown: Duration(0),
            nbullets: 1,
            spread: Percentage(0),
            name: "SMG",
            ammo: Ammo {
                damage: Health(10),
                range: Distance(24),
                speed: 3,
                sprites: AmmoSprites::Two(Sprite::Custom("bulletvert"), Sprite::Custom("bullethor")),
                spreading: true,
            },
        }
    }

    pub open spec fn spec_rifle() -> Weapon {
        Weapon {
            cooldown: Duration(4),
            nbullets: 1,
            spread: Percentage(0),
            name: "Rifle",
            ammo: Ammo {
                damage: Health(25),
                range: Distance(40),
                speed: 4,
                sprites: AmmoSprites::Two(Sprite::Custom("bulletvert"), Sprite::Custom("bullethor")),
                spreading: false,
            },
        }
    }

    pub open spec fn spec_shotgun() -> Weapon {
        Weapon {
            cooldown: Duration(5),
            nbullets: 20,
            spread: Percentage(45),
            name: "Shotgun",
            ammo: Ammo {
                damage: Health(5),
                range: Distance(14),
                speed: 5,
                sprites: AmmoSprites::Two(Sprite::Custom("bulletvert"), Sprite::Custom("bullethor")),
                spreading: false,
            },
        }
    }

    pub fn bite(damage: Health, cooldown: Duration) -> (w: Weapon)
        ensures
            w == Weapon::spec_bite(damage, cooldown),
    {
        Weapon {
            cooldown,
            nbullets: 1,
            spread: Percentage(0),
            name: "Bite",
            ammo: Ammo {
                damage,
                range: Distance(1),
                speed: 2,
                sprites: AmmoSprites::One(Sprite::new("bite")),
                spreading: false,
            },
        }
    }

    pub fn cast(damage: Health, range: Distance, cooldown: Duration) -> (w: Weapon)
        ensures
            w == Weapon::spec_cast(damage, range, cooldown),
    {
        Weapon {
            cooldown,
            nbullets: 1,
            spread: Percentage(0),
            name: "Cast",
            ammo: Ammo {
                damage,
                range,
                speed: 1,
                sprites: AmmoSprites::One(Sprite::new("bullet")),
                spreading: false,
            },
        }
    }

    pub fn spit(damage: Health, range: Distance, nbullets: usize, spread: Percentage, cooldown: Duration) -> (w: Weapon)
        ensures
            w == Weapon::spec_spit(damage, range, nbullets, spread, cooldown),
    {
        Weapon {
            cooldown,
            nbullets,
            spread,
            name: "Spit",
            ammo: Ammo {
                damage,
                range,
                speed: 1,
                sprites: AmmoSprites::One(Sprite::new("spit")),
                spreading: false,
            },
        }
    }

    pub fn smg() -> (w: Weapon)
        ensures
            w == Weapon::spec_smg(),
            w.wf(),
    {
        Weapon {
            cooldown: Duration(0),
            nbullets: 1,
            spread: Percentage(0),
            name: "SMG",
            ammo: Ammo {
                damage: Health(10),
                range: Distance(24),
                speed: 3,
                sprites: AmmoSprites::Two(Sprite::new("bulletvert"), Sprite::new("bullethor")),
                spreading: true,
            },
        }
    }

    pub fn rifle() -> (w: Weapon)
        ensures
            w == Weapon::spec_rifle(),
            w.wf(),
    {
        Weapon {
            cooldown: Duration(4),
            nbullets: 1,
            spread: Percentage(0),
            name: "Rifle",
            ammo: Ammo {
                damage: Health(25),
                range: Distance(40),
                speed: 4,
                sprites: AmmoSprites::Two(Sprite::new("bulletvert"), Sprite::new("bullethor")),
                spreading: false,
            },
        }
    }

    pub fn shotgun() -> (w: Weapon)
        ensures
            w == Weapon::spec_shotgun(),
            w.wf(),
    {
        Weapon {
            cooldown: Duration(5),
            nbullets: 20,
            spread: Percentage(45),
            name: "Shotgun",
            ammo: Ammo {
                damage: Health(5),
                range: Distance(14),
                speed: 5,
                sprites: AmmoSprites::Two(Sprite::new("bulletvert"), Sprite::new("bullethor")),
                spreading: false,
            },
        }
    }
}

/// What the dice give for one sub-step of a bullet: whether it sways if
/// it can, and to which side, and the coin that decides on which side an
/// exact diagonal falls.
#[derive(Debug, Clone, Copy, PartialEq, Eq, Structural)]
pub struct Luck {
    pub sway: Option<bool>,
    pub coin: bool,
}

impl Luck {
    /// Throws the dice for one sub-step.
    pub fn draw(dice: &mut Dice) -> Luck {
        let sway = if dice.coin() {
            Some(dice.coin())
        } else {
            None
        };
        Luck { sway, coin: dice.coin() }
    }
}

#[derive(Debug, Clone, Copy, PartialEq, Eq)]
pub struct Bullet {
    pub direction: Pos,
    pub steps: Pos,
    pub pos: Pos,
    pub alignment: Alignment,
    pub ammo: Ammo,
}

impl Bullet {
    /// The number of steps the bullet has made.
    pub open spec fn travelled(self) -> int {
        self.steps.x + self.steps.y
    }

    /// How far a coordinate of the bullet can lie outside the grid: as far
    /// as it has travelled, and one more once it may have swayed.
    pub open spec fn slack(self) -> int {
        if self.travelled() >= 2 {
            self.travelled() + 1
        } else {
            self.travelled()
        }
    }

    /// The bullet's numbers are within the limits that keep its arithmetic
    /// inside `i64`, and it has travelled only if it has a direction.
    pub open spec fn wf(self) -> bool {
        &&& self.ammo.wf()
        &&& self.direction.within(SCATTER_LIMIT as int)
        &&& 0 <= self.steps.x
        &&& 0 <= self.steps.y
        &&& self.travelled() <= GRID_LIMIT + 1
        &&& (self.travelled() >= 1 ==> self.direction != (Pos { x: 0, y: 0 }))
        &&& -self.slack() <= self.pos.x <= GRID_LIMIT + self.slack()
        &&& -self.slack() <= self.pos.y <= GRID_LIMIT + self.slack()
    }

    /// The step across the line of flight that a spreading bullet makes
    /// after its first step, if `sway` says so and to the side it says.
    pub open spec fn spec_sideways(self, sway: Option<bool>) -> Pos {
        match sway {
            Some(positive) => if self.travelled() == 1 {
                let r: i64 = if positive {
                    1
                } else {
                    -1i64
                };
                if spec_abs(self.direction.y as int) > spec_abs(self.direction.x as int) {
                    Pos { x: r, y: 0 }
                } else {
                    Pos { x: 0, y: r }
                }
            } else {
                Pos { x: 0, y: 0 }
            },
            None => Pos { x: 0, y: 0 },
        }
    }

    /// The step along the line of flight: one cell along the axis that is due.
    pub open spec fn spec_movement(self, coin: bool) -> Pos {
        let dabs = Pos {
            x: spec_abs(self.direction.x as int) as i64,
            y: spec_abs(self.direction.y as int) as i64,
        };
        if spec_quadrant_move_y(dabs, self.steps, coin) {
            Pos { x: 0, y: spec_signum(self.direction.y as int) as i64 }
        } else {
            Pos { x: spec_signum(self.direction.x as int) as i64, y: 0 }
        }
    }

    /// The bullet after one sub-step in which `sway` and `coin` came up.
    pub open spec fn moved(self, sway: Option<bool>, coin: bool) -> Bullet {
        let side = if self.ammo.spreading {
            self.spec_sideways(sway)
        } else {
            Pos { x: 0, y: 0 }
        };
        let d = self.spec_movement(coin);
        Bullet {
            pos: Pos { x: (self.pos.x + side.x + d.x) as i64, y: (self.pos.y + side.y + d.y) as i64 },
            steps: Pos {
                x: (self.steps.x + if d.x == 0 {
                    0int
                } else {
                    1int
                }) as i64,
                y: (self.steps.y + if d.y == 0 {
                    0int
                } else {
                    1int
                }) as i64,
            },
            ..self
        }
    }

    /// Whether the bullet has made more steps than its range allows,
    /// counted along both axes.
    pub open spec fn spec_out_of_range(self) -> bool {
        self.steps.l1() > self.ammo.range.0
    }

    pub open spec fn spec_sprite(self) -> Sprite {
        match self.ammo.sprites {
            AmmoSprites::One(only) => only,
            AmmoSprites::Two(upright, level) => if spec_abs(self.direction.x as int) > spec_abs(
                self.direction.y as int,
            ) {
                level
            } else {
                upright
            },
        }
    }

    /// The sideways step for a given outcome of the dice.
    pub fn sideways(&self, sway: Option<bool>) -> (r: Pos)
        requires
            self.wf(),
        ensures
            r == self.spec_sideways(sway),
    {
        match sway {
            Some(positive) => {
                if self.steps.x + self.steps.y == 1 {
                    let r: i64 = if positive {
                        1
                    } else {
                        -1
                    };
                    if abs(self.direction.y) > abs(self.direction.x) {
                        Pos::new(r, 0)
                    } else {
                        Pos::new(0, r)
                    }
                } else {
                    Pos::new(0, 0)
                }
            },
            None => Pos::new(0, 0),
        }
    }

    /// Decides whether the bullet sways, and to which side.
    fn inaccurate_movement(&self, dice: &mut Dice) -> (r: Pos)
        requires
            self.wf(),
        ensures
            exists|sway: Option<bool>| r == self.spec_sideways(sway),
    {
        if self.steps.x + self.steps.y == 1 && dice.coin() {
            let positive = dice.coin();
            let r = self.sideways(Some(positive));
            assert(r == self.spec_sideways(Some(positive)));
            r
        } else {
            let r = Pos::new(0, 0);
            assert(r == self.spec_sideways(None));
            r
        }
    }

    /// The regular step for a given outcome of the coin that decides diagonals.
    pub fn movement(&self, coin: bool) -> (r: Pos)
        requires
            self.wf(),
        ensures
            r == self.spec_movement(coin),
    {
        let dabs = self.direction.abs();
        if quadrant_move_y(dabs, self.steps, coin) {
            Pos::new(0, signum(self.direction.y))
        } else {
            Pos::new(signum(self.direction.x), 0)
        }
    }

    /// A bullet with room to travel stays well formed when it moves.
    pub proof fn lemma_moved_wf(self, sway: Option<bool>, coin: bool)
        requires
            self.wf(),
            self.travelled() <= GRID_LIMIT,
        ensures
            self.moved(sway, coin).wf(),
            self.moved(sway, coin).travelled() == self.travelled() + (if self.direction == (Pos { x: 0, y: 0 }) {
                0int
            } else {
                1int
            }),
            self.moved(sway, coin).direction == self.direction,
            self.moved(sway, coin).ammo == self.ammo,
            self.moved(sway, coin).alignment == self.alignment,
    {
        let dabs = Pos {
            x: spec_abs(self.direction.x as int) as i64,
            y: spec_abs(self.direction.y as int) as i64,
        };
        if self.direction != (Pos { x: 0, y: 0 }) {
            lemma_step_axis(dabs, self.steps, coin);
        }
    }

    /// Advances the bullet by one sub-step with the luck given: a
    /// spreading bullet may first sway, then every bullet makes its
    /// regular step.
    pub fn step_with(&mut self, luck: Luck)
        requires
            old(self).wf(),
            old(self).travelled() <= GRID_LIMIT,
        ensures
            *final(self) == old(self).moved(luck.sway, luck.coin),
            final(self).wf(),
    {
        let ghost before = *self;
        let side = if self.ammo.spreading {
            self.sideways(luck.sway)
        } else {
            Pos::new(0, 0)
        };
        let d = self.movement(luck.coin);
        proof {
            before.lemma_moved_wf(luck.sway, luck.coin);
        }
        self.pos = Pos::new(self.pos.x + side.x + d.x, self.pos.y + side.y + d.y);
        self.steps.x += if d.x == 0 {
            0
        } else {
            1
        };
        self.steps.y += if d.y == 0 {
            0
        } else {
            1
        };
    }

    /// Advances the bullet by one sub-step: a spreading bullet may first
    /// sway, then every bullet makes its regular step.
    pub fn do_move(&mut self, dice: &mut Dice)
        requires
            old(self).wf(),
            old(self).travelled() <= GRID_LIMIT,
        ensures
            exists|sway: Option<bool>, coin: bool| *final(self) == old(self).moved(sway, coin),
            final(self).wf(),
            final(self).travelled() == old(self).travelled() + (if old(self).direction == (Pos { x: 0, y: 0 }) {
                0int
            } else {
                1int
            }),
            final(self).direction == old(self).direction,
            final(self).ammo == old(self).ammo,
            final(self).alignment == old(self).alignment,
    {
        let ghost before = *self;
        let ghost mut sway: Option<bool> = None;
        let mut side = Pos::new(0, 0);
        if self.ammo.spreading {
            side = self.inaccurate_movement(dice);
            proof {
                sway = choose|s: Option<bool>| side == before.spec_sideways(s);
            }
        }
        let coin = if abs(self.direction.x) == abs(self.direction.y) {
            dice.coin()
        } else {
            false
        };
        let d = self.movement(coin);
        proof {
            before.lemma_moved_wf(sway, coin);
        }
        self.pos = Pos::new(self.pos.x + side.x + d.x, self.pos.y + side.y + d.y);
        self.steps.x += if d.x == 0 {
            0
        } else {
            1
        };
        self.steps.y += if d.y == 0 {
            0
        } else {
            1
        };
        assert(*self == before.moved(sway, coin));
    }

    pub fn out_of_range(&self) -> (r: bool)
        requires
            self.steps.l1() <= i64::MAX,
        ensures
            r == self.spec_out_of_range(),
    {
        self.steps.size() > self.ammo.range.0
    }

    pub fn sprite(&self) -> (s: Sprite)
        requires
            self.direction.x > i64::MIN,
            self.direction.y > i64::MIN,
        ensures
            s == self.spec_sprite(),
    {
        match self.ammo.sprites {
            AmmoSprites::One(only) => only,
            AmmoSprites::Two(upright, level) => {
                if abs(self.direction.x) > abs(self.direction.y) {
                    level
                } else {
                    upright
                }
            },
        }
    }
}

} // verus!
