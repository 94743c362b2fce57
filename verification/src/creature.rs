use vstd::prelude::*;
use crate::dice::Dice;
use crate::playerid::PlayerId;
use crate::pos::{Direction, Distance, Pos};
use crate::sprite::Sprite;
use crate::timestamp::Duration;
use crate::util::Percentage;
use crate::weapon::Weapon;

verus! {

/// What decides the actions of a creature.
#[derive(Debug, Clone, Copy, PartialEq, Eq, Structural)]
pub enum Mind {
    /// The creature does what the player asks.
    Player(PlayerId),
    /// The creature hunts hostile creatures; the percentage is the share of
    /// its steps that it makes at random.
    BloodThirst(Percentage),
    /// The creature goes for hostile buildings.
    Destroyer,
    /// The creature does nothing.
    Pillar,
}

#[derive(Debug, Clone, Copy, PartialEq, Eq, Structural)]
pub enum CreatureType {
    Zombie,
    Ymp,
    Worm,
    Troll,
    Pillar,
    Player,
    Vargr,
    Xiangliu,
}

/// The side a creature is on. Creatures are hostile to each other exactly
/// when their alignments differ.
#[derive(Debug, Clone, Copy, PartialEq, Eq, Structural)]
pub enum Alignment {
    Players,
    Player(PlayerId),
    Monsters,
}

#[derive(Debug, Clone, Copy, PartialEq, Eq, Structural)]
pub struct Health(pub i64);

#[derive(Debug, Clone, PartialEq, Eq)]
pub struct Creature {
    pub mind: Mind,
    pub pos: Pos,
    pub dir: Direction,
    pub health: Health,
    pub max_health: Health,
    pub cooldown: Duration,
    pub walk_cooldown: Duration,
    pub sprite: Sprite,
    pub alignment: Alignment,
    /// The weapon slots; the flag says whether the slot can be selected.
    pub weapons: Vec<(Weapon, bool)>,
    pub selected_weapon: usize,
    pub is_building: bool,
}

/// The slot that comes up when the selection moves on from `selected`, `k`
/// or more places further and around the end, to the first slot that is
/// available; `selected` itself where none is.
pub open spec fn next_slot(slots: Seq<(Weapon, bool)>, selected: int, k: int) -> int
    decreases slots.len() + 1 - k,
{
    if k < 1 || k > slots.len() {
        selected
    } else if slots[(selected % (slots.len() as int) + k) % (slots.len() as int)].1 {
        (selected % (slots.len() as int) + k) % (slots.len() as int)
    } else {
        next_slot(slots, selected, k + 1)
    }
}

/// The same as `next_slot`, with the selection moving backwards.
pub open spec fn previous_slot(slots: Seq<(Weapon, bool)>, selected: int, k: int) -> int
    decreases slots.len() + 1 - k,
{
    if k < 1 || k > slots.len() {
        selected
    } else if slots[(selected % (slots.len() as int) + slots.len() - k) % (slots.len() as int)].1 {
        (selected % (slots.len() as int) + slots.len() - k) % (slots.len() as int)
    } else {
        previous_slot(slots, selected, k + 1)
    }
}

/// The health after healing by `amount`: never less than before, and not
/// raised above `max_health`.
pub open spec fn healed(health: int, max_health: int, amount: int) -> int {
    let raised = if health + amount < max_health {
        health + amount
    } else {
        max_health
    };
    if raised > health {
        raised
    } else {
        health
    }
}

/// The health after healing by `amount`.
pub fn healed_value(health: i64, max_health: i64, amount: i64) -> (r: i64)
    ensures
        r == healed(health as int, max_health as int, amount as int),
{
    if amount > 0 && health < max_health {
        if health > i64::MAX - amount {
            max_health
        } else {
            let raised = health + amount;
            if raised > max_health {
                max_health
            } else {
                raised
            }
        }
    } else {
        health
    }
}

impl Creature {
    /// The invariants of a creature: cooldowns are not negative, health is
    /// not above the maximum, only a pillar mind is a building, the weapons
    /// are well formed and the selection points at a slot.
    pub open spec fn wf(self) -> bool {
        &&& 0 <= self.cooldown.0
        &&& 0 <= self.walk_cooldown.0
        &&& self.health.0 <= self.max_health.0
        &&& (self.is_building ==> self.mind is Pillar)
        &&& (forall|i: int| 0 <= i < self.weapons@.len() ==> (#[trigger] self.weapons@[i]).0.wf())
        &&& (self.weapons@.len() == 0 ==> self.selected_weapon == 0)
        &&& (self.weapons@.len() > 0 ==> self.selected_weapon < self.weapons@.len())
    }

    pub open spec fn spec_is_dead(self) -> bool {
        self.health.0 <= 0
    }

    /// The selected weapon, where the selection points at an available slot.
    pub open spec fn spec_weapon(self) -> Option<Weapon> {
        if self.selected_weapon < self.weapons@.len() && self.weapons@[self.selected_weapon as int].1 {
            Some(self.weapons@[self.selected_weapon as int].0)
        } else {
            None
        }
    }

    pub fn is_player(&self) -> (b: bool)
        ensures
            b == (self.mind is Player),
    {
        matches!(self.mind, Mind::Player(_))
    }

    pub fn is_dead(&self) -> (b: bool)
        ensures
            b == (self.health.0 <= 0),
    {
        self.health.0 <= 0
    }

    pub fn kill(&mut self)
        ensures
            *final(self) == (Creature { health: Health(-1i64), ..*old(self) }),
    {
        self.health.0 = -1;
    }

    pub fn heal(&mut self, amount: Health)
        ensures
            *final(self) == (Creature {
                health: Health(healed(old(self).health.0 as int, old(self).max_health.0 as int, amount.0 as int) as i64),
                ..*old(self)
            }),
            final(self).health.0 == healed(old(self).health.0 as int, old(self).max_health.0 as int, amount.0 as int),
            old(self).health.0 <= old(self).max_health.0 ==> final(self).health.0 <= final(self).max_health.0,
    {
        self.health.0 = healed_value(self.health.0, self.max_health.0, amount.0);
    }

    pub fn has_full_health(&self) -> (b: bool)
        ensures
            b == (self.health.0 >= self.max_health.0),
    {
        self.health.0 >= self.max_health.0
    }

    pub fn damage(&mut self, amount: Health)
        requires
            i64::MIN <= old(self).health.0 - amount.0 <= i64::MAX,
        ensures
            *final(self) == (Creature { health: Health((old(self).health.0 - amount.0) as i64), ..*old(self) }),
            final(self).health.0 == old(self).health.0 - amount.0,
    {
        self.health.0 -= amount.0;
    }

    pub fn weapon(&self) -> (w: Option<&Weapon>)
        ensures
            match w {
                Some(weapon) => self.spec_weapon() == Some(*weapon),
                None => self.spec_weapon() is None,
            },
    {
        if self.selected_weapon < self.weapons.len() && self.weapons[self.selected_weapon].1 {
            Some(&self.weapons[self.selected_weapon].0)
        } else {
            None
        }
    }

    pub fn select_next_weapon(&mut self)
        ensures
            final(self).selected_weapon == next_slot(old(self).weapons@, old(self).selected_weapon as int, 1),
            *final(self) == (Creature { selected_weapon: final(self).selected_weapon, ..*old(self) }),
            old(self).wf() ==> final(self).wf(),
    {
        let n = self.weapons.len();
        if n == 0 {
            return ;
        }
        let start = self.selected_weapon % n;
        let mut j: usize = 0;
        while j < n
            invariant
                n == self.weapons@.len(),
                n > 0,
                start == old(self).selected_weapon % n,
                j <= n,
                *self == *old(self),
                next_slot(self.weapons@, old(self).selected_weapon as int, j + 1) == next_slot(
                    self.weapons@,
                    old(self).selected_weapon as int,
                    1,
                ),
            decreases n - j,
        {
            let k = j + 1;
            let at = if k >= n - start {
                k - (n - start)
            } else {
                start + k
            };
            assert(at == (start + k) % (n as int)) by {
                if k >= n - start {
                    vstd::arithmetic::div_mod::lemma_fundamental_div_mod_converse(start + k, n as int, 1, at as int);
                } else {
                    vstd::arithmetic::div_mod::lemma_small_mod((start + k) as nat, n as nat);
                }
            }
            if self.weapons[at].1 {
                self.selected_weapon = at;
                return ;
            }
            j += 1;
        }
    }

    pub fn select_previous_weapon(&mut self)
        ensures
            final(self).selected_weapon == previous_slot(old(self).weapons@, old(self).selected_weapon as int, 1),
            *final(self) == (Creature { selected_weapon: final(self).selected_weapon, ..*old(self) }),
            old(self).wf() ==> final(self).wf(),
    {
        let n = self.weapons.len();
        if n == 0 {
            return ;
        }
        let start = self.selected_weapon % n;
        let mut j: usize = 0;
        while j < n
            invariant
                n == self.weapons@.len(),
                n > 0,
                start == old(self).selected_weapon % n,
                j <= n,
                *self == *old(self),
                previous_slot(self.weapons@, old(self).selected_weapon as int, j + 1) == previous_slot(
                    self.weapons@,
                    old(self).selected_weapon as int,
                    1,
                ),
            decreases n - j,
        {
            let k = j + 1;
            let at = if k > start {
                n - (k - start)
            } else {
                start - k
            };
            assert(at == (start + n - k) % (n as int)) by {
                if k > start {
                    vstd::arithmetic::div_mod::lemma_small_mod((start + n - k) as nat, n as nat);
                } else {
                    vstd::arithmetic::div_mod::lemma_fundamental_div_mod_converse(start + n - k, n as int, 1, at as int);
                }
            }
            if self.weapons[at].1 {
                self.selected_weapon = at;
                return ;
            }
            j += 1;
        }
    }

    pub fn range(&self) -> (r: Distance)
        ensures
            r == (match self.spec_weapon() {
                Some(weapon) => weapon.ammo.range,
                None => Distance(0),
            }),
    {
        match self.weapon() {
            Some(weapon) => weapon.get_range(),
            None => Distance(0),
        }
    }

    /// Whether the creature is a body as a player gets it at `pos`: barely
    /// alive, facing north, with a shotgun, a rifle and an SMG, on its own
    /// side where `pvp` holds and on the players' side else.
    pub open spec fn is_new_player(self, playerid: PlayerId, sprite: Sprite, pos: Pos, pvp: bool) -> bool {
        &&& self.mind == Mind::Player(playerid)
        &&& self.pos == pos
        &&& self.dir == Direction::North
        &&& self.health == Health(1)
        &&& self.max_health == Health(100)
        &&& self.cooldown == Duration(0)
        &&& self.walk_cooldown == Duration(0)
        &&& self.sprite == sprite
        &&& self.weapons@ == seq![
            (Weapon::spec_shotgun(), true),
            (Weapon::spec_rifle(), true),
            (Weapon::spec_smg(), true),
        ]
        &&& self.selected_weapon == 0
        &&& self.alignment == (if pvp {
            Alignment::Player(playerid)
        } else {
            Alignment::Players
        })
        &&& !self.is_building
    }

    /// Whether the creature is a pillar as it is built at `pos`.
    pub open spec fn is_new_pillar(self, pos: Pos) -> bool {
        &&& self.mind == Mind::Pillar
        &&& self.pos == pos
        &&& self.dir == Direction::North
        &&& self.health == Health(200)
        &&& self.max_health == Health(200)
        &&& self.cooldown == Duration(1)
        &&& self.walk_cooldown == Duration(1)
        &&& self.sprite == Sprite::Custom("pillar")
        &&& self.weapons@ == Seq::<(Weapon, bool)>::empty()
        &&& self.selected_weapon == 0
        &&& self.alignment == Alignment::Players
        &&& self.is_building
    }

    /// Whether the creature is a monster as it enters the world at `pos`:
    /// in full health, with one weapon, and with a first cooldown of at
    /// most its walking cooldown.
    pub open spec fn is_new_monster(
        self,
        pos: Pos,
        mind: Mind,
        health: Health,
        cooldown: Duration,
        sprite: Sprite,
        weapon: Weapon,
    ) -> bool {
        &&& self.mind == mind
        &&& self.pos == pos
        &&& self.dir == Direction::North
        &&& self.health == health
        &&& self.max_health == health
        &&& 0 <= self.cooldown.0 <= cooldown.0
        &&& self.walk_cooldown == cooldown
        &&& self.sprite == sprite
        &&& self.weapons@ == seq![(weapon, true)]
        &&& self.selected_weapon == 0
        &&& self.alignment == Alignment::Monsters
        &&& !self.is_building
    }

    /// Whether the creature is one of kind `typ` as it enters the world at
    /// `pos`. The body that stands for the kind `Player` belongs to player 0
    /// and is on its own side.
    pub open spec fn is_new(self, typ: CreatureType, pos: Pos) -> bool {
        match typ {
            CreatureType::Player => self.is_new_player(PlayerId(0), Sprite::Custom("player_g:X"), pos, true),
            CreatureType::Pillar => self.is_new_pillar(pos),
            CreatureType::Zombie => self.is_new_monster(
                pos,
                Mind::BloodThirst(Percentage(0)),
                Health(20),
                Duration(1),
                Sprite::Custom("zombie"),
                Weapon::spec_bite(Health(10), Duration(2)),
            ),
            CreatureType::Ymp => self.is_new_monster(
                pos,
                Mind::BloodThirst(Percentage(0)),
                Health(20),
                Duration(2),
                Sprite::Custom("ymp"),
                Weapon::spec_cast(Health(10), Distance(30), Duration(2)),
            ),
            CreatureType::Troll => self.is_new_monster(
                pos,
                Mind::Destroyer,
                Health(100),
                Duration(4),
                Sprite::Custom("troll"),
                Weapon::spec_cast(Health(50), Distance(2), Duration(4)),
            ),
            CreatureType::Worm => self.is_new_monster(
                pos,
                Mind::Destroyer,
                Health(12),
                Duration(3),
                Sprite::Custom("worm"),
                Weapon::spec_cast(Health(10), Distance(2), Duration(3)),
            ),
            CreatureType::Xiangliu => self.is_new_monster(
                pos,
                Mind::BloodThirst(Percentage(0)),
                Health(50),
                Duration(1),
                Sprite::Custom("xiangliu"),
                Weapon::spec_spit(Health(10), Distance(16), 9, Percentage(60), Duration(4)),
            ),
            CreatureType::Vargr => self.is_new_monster(
                pos,
                Mind::BloodThirst(Percentage(20)),
                Health(50),
                Duration(0),
                Sprite::Custom("vargr"),
                Weapon::spec_bite(Health(30), Duration(10)),
            ),
        }
    }

    /// A creature as it enters the world is well formed, alive, and a
    /// monster exactly when its kind is one.
    pub proof fn lemma_new_wf(self, typ: CreatureType, pos: Pos)
        requires
            self.is_new(typ, pos),
        ensures
            self.wf(),
            self.pos == pos,
            self.health.0 > 0,
            self.alignment == Alignment::Monsters <==> !(typ is Player || typ is Pillar),
            self.is_building <==> typ is Pillar,
    {
        assert(self.weapons@.len() <= 3);
        assert forall|i: int| 0 <= i < self.weapons@.len() implies (#[trigger] self.weapons@[i]).0.wf() by {}
    }

    /// The body that a player gets is well formed, alive and no monster.
    pub proof fn lemma_new_player_wf(self, playerid: PlayerId, sprite: Sprite, pos: Pos, pvp: bool)
        requires
            self.is_new_player(playerid, sprite, pos, pvp),
        ensures
            self.wf(),
            self.pos == pos,
            self.health.0 > 0,
            self.alignment != Alignment::Monsters,
            !self.is_building,
    {
        assert forall|i: int| 0 <= i < self.weapons@.len() implies (#[trigger] self.weapons@[i]).0.wf() by {}
    }

    pub fn create_creature(typ: CreatureType, pos: Pos, dice: &mut Dice) -> (c: Creature)
        ensures
            c.is_new(typ, pos),
    {
        match typ {
            CreatureType::Player => Self::new_player(PlayerId(0), Sprite::new("player_g:X"), pos, true),
            CreatureType::Zombie => Self::new_zombie(pos, dice),
            CreatureType::Ymp => Self::new_ymp(pos, dice),
            CreatureType::Worm => Self::new_worm(pos, dice),
            CreatureType::Troll => Self::new_troll(pos, dice),
            CreatureType::Pillar => Self::new_pillar(pos),
            CreatureType::Xiangliu => Self::new_xiangliu(pos, dice),
            CreatureType::Vargr => Self::new_vargr(pos, dice),
        }
    }

    pub fn new_player(playerid: PlayerId, sprite: Sprite, pos: Pos, pvp: bool) -> (c: Creature)
        ensures
            c.is_new_player(playerid, sprite, pos, pvp),
    {
        let mut weapons: Vec<(Weapon, bool)> = Vec::new();
        weapons.push((Weapon::shotgun(), true));
        weapons.push((Weapon::rifle(), true));
        weapons.push((Weapon::smg(), true));
        assert(weapons@ =~= seq![
            (Weapon::spec_shotgun(), true),
            (Weapon::spec_rifle(), true),
            (Weapon::spec_smg(), true),
        ]);
        Self {
            mind: Mind::Player(playerid),
            pos,
            dir: Direction::North,
            health: Health(1),
            max_health: Health(100),
            cooldown: Duration(0),
            walk_cooldown: Duration(0),
            sprite,
            weapons,
            selected_weapon: 0,
            alignment: if pvp {
                Alignment::Player(playerid)
            } else {
                Alignment::Players
            },
            is_building: false,
        }
    }

    pub fn new_pillar(pos: Pos) -> (c: Creature)
        ensures
            c.is_new_pillar(pos),
    {
        Self {
            mind: Mind::Pillar,
            pos,
            dir: Direction::North,
            health: Health(200),
            max_health: Health(200),
            cooldown: Duration(1),
            walk_cooldown: Duration(1),
            sprite: Sprite::new("pillar"),
            weapons: Vec::new(),
            selected_weapon: 0,
            alignment: Alignment::Players,
            is_building: true,
        }
    }

    pub fn new_zombie(pos: Pos, dice: &mut Dice) -> (c: Creature)
        ensures
            c.is_new(CreatureType::Zombie, pos),
    {
        Self::new_monster(
            pos,
            Mind::BloodThirst(Percentage(0)),
            Health(20),
            Duration(1),
            Sprite::new("zombie"),
            Weapon::bite(Health(10), Duration(2)),
            dice,
        )
    }

    pub fn new_ymp(pos: Pos, dice: &mut Dice) -> (c: Creature)
        ensures
            c.is_new(CreatureType::Ymp, pos),
    {
        Self::new_monster(
            pos,
            Mind::BloodThirst(Percentage(0)),
            Health(20),
            Duration(2),
            Sprite::new("ymp"),
            Weapon::cast(Health(10), Distance(30), Duration(2)),
            dice,
        )
    }

    pub fn new_troll(pos: Pos, dice: &mut Dice) -> (c: Creature)
        ensures
            c.is_new(CreatureType::Troll, pos),
    {
        Self::new_monster(
            pos,
            Mind::Destroyer,
            Health(100),
            Duration(4),
            Sprite::new("troll"),
            Weapon::cast(Health(50), Distance(2), Duration(4)),
            dice,
        )
    }

    pub fn new_worm(pos: Pos, dice: &mut Dice) -> (c: Creature)
        ensures
            c.is_new(CreatureType::Worm, pos),
    {
        Self::new_monster(
            pos,
            Mind::Destroyer,
            Health(12),
            Duration(3),
            Sprite::new("worm"),
            Weapon::cast(Health(10), Distance(2), Duration(3)),
            dice,
        )
    }

    pub fn new_xiangliu(pos: Pos, dice: &mut Dice) -> (c: Creature)
        ensures
            c.is_new(CreatureType::Xiangliu, pos),
    {
        Self::new_monster(
            pos,
            Mind::BloodThirst(Percentage(0)),
            Health(50),
            Duration(1),
            Sprite::new("xiangliu"),
            Weapon::spit(Health(10), Distance(16), 9, Percentage(60), Duration(4)),
            dice,
        )
    }

    pub fn new_vargr(pos: Pos, dice: &mut Dice) -> (c: Creature)
        ensures
            c.is_new(CreatureType::Vargr, pos),
    {
        Self::new_monster(
            pos,
            Mind::BloodThirst(Percentage(20)),
            Health(50),
            Duration(0),
            Sprite::new("vargr"),
            Weapon::bite(Health(30), Duration(10)),
            dice,
        )
    }

    /// A monster in full health with one weapon; its first cooldown is
    /// rolled from nothing up to its walking cooldown.
    pub fn new_monster(
        pos: Pos,
        mind: Mind,
        health: Health,
        cooldown: Duration,
        sprite: Sprite,
        weapon: Weapon,
        dice: &mut Dice,
    ) -> (c: Creature)
        requires
            0 <= cooldown.0,
        ensures
            c.is_new_monster(pos, mind, health, cooldown, sprite, weapon),
    {
        let mut weapons: Vec<(Weapon, bool)> = Vec::new();
        weapons.push((weapon, true));
        assert(weapons@ =~= seq![(weapon, true)]);
        Self {
            mind,
            pos,
            dir: Direction::North,
            health,
            max_health: health,
            cooldown: Duration(dice.roll(0, cooldown.0)),
            walk_cooldown: cooldown,
            sprite,
            weapons,
            selected_weapon: 0,
            alignment: Alignment::Monsters,
            is_building: false,
        }
    }
}

} // verus!
