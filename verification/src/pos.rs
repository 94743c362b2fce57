use vstd::prelude::*;
use vstd::std_specs::ops::AddSpecImpl;
use vstd::std_specs::ops::SubSpecImpl;
use vstd::std_specs::ops::NegSpecImpl;
use vstd::std_specs::ops::MulSpecImpl;
use crate::util::{abs, clamp, signum, spec_abs, spec_clamp, spec_signum};

verus! {

/// A length measured in cells along the axes.
#[derive(Debug, Clone, Copy, PartialEq, Eq, Structural)]
pub struct Distance(pub i64);

/// The longest side a map may have. With sides, shot vectors and weapon
/// ranges below this bound, all position arithmetic stays inside `i64`.
pub const GRID_LIMIT: i64 = 1048576;

#[derive(Debug, Clone, Copy, PartialEq, Eq, Structural)]
pub enum Direction {
    North,
    South,
    East,
    West,
}

impl Direction {
    /// The unit vector of the direction; north is towards smaller `y`.
    pub open spec fn vector(self) -> Pos {
        match self {
            Direction::North => Pos { x: 0, y: -1i64 },
            Direction::South => Pos { x: 0, y: 1 },
            Direction::East => Pos { x: 1, y: 0 },
            Direction::West => Pos { x: -1i64, y: 0 },
        }
    }

    /// The four directions in their fixed order.
    pub open spec fn all() -> Seq<Direction> {
        seq![Direction::North, Direction::South, Direction::East, Direction::West]
    }

    pub fn to_position(self) -> (p: Pos)
        ensures
            p == self.vector(),
    {
        match self {
            Direction::North => Pos::new(0, -1),
            Direction::South => Pos::new(0, 1),
            Direction::East => Pos::new(1, 0),
            Direction::West => Pos::new(-1, 0),
        }
    }

    pub const DIRECTIONS: [Direction; 4] = [
        Direction::North,
        Direction::South,
        Direction::East,
        Direction::West,
    ];

    /// The direction at place `i` of the fixed order.
    pub fn nth(i: usize) -> (d: Direction)
        requires
            i < 4,
        ensures
            d == Direction::all()[i as int],
    {
        if i == 0 {
            Direction::North
        } else if i == 1 {
            Direction::South
        } else if i == 2 {
            Direction::East
        } else {
            Direction::West
        }
    }
}

#[derive(Debug, Hash, PartialEq, Eq, Clone, Copy, Structural)]
pub struct Pos {
    pub x: i64,
    pub y: i64,
}

impl Pos {
    /// Both coordinates are at most `bound` in magnitude.
    pub open spec fn within(self, bound: int) -> bool {
        -bound <= self.x <= bound && -bound <= self.y <= bound
    }

    /// The sum of the magnitudes of the two coordinates.
    pub open spec fn l1(self) -> int {
        spec_abs(self.x as int) + spec_abs(self.y as int)
    }

    /// The position one step in direction `dir`.
    pub open spec fn step(self, dir: Direction) -> Pos
        recommends
            self.within(i64::MAX - 1),
    {
        Pos { x: (self.x + dir.vector().x) as i64, y: (self.y + dir.vector().y) as i64 }
    }

    /// The directions in which `other` lies, east or west before south or north.
    pub open spec fn toward(self, other: Pos) -> Seq<Direction> {
        (if other.x > self.x {
            seq![Direction::East]
        } else if other.x < self.x {
            seq![Direction::West]
        } else {
            Seq::<Direction>::empty()
        }) + (if other.y > self.y {
            seq![Direction::South]
        } else if other.y < self.y {
            seq![Direction::North]
        } else {
            Seq::<Direction>::empty()
        })
    }

    pub fn new(x: i64, y: i64) -> (p: Pos)
        ensures
            p == (Pos { x, y }),
    {
        Pos { x, y }
    }

    pub fn from_tuple(p: (i64, i64)) -> (r: Pos)
        ensures
            r == (Pos { x: p.0, y: p.1 }),
    {
        let (x, y) = p;
        Pos { x, y }
    }

    /// Limits each coordinate to the interval that `smaller` and `larger` span on its axis.
    pub fn clamp(self, smaller: Pos, larger: Pos) -> (r: Pos)
        ensures
            r.x == spec_clamp(self.x as int, smaller.x as int, larger.x as int),
            r.y == spec_clamp(self.y as int, smaller.y as int, larger.y as int),
    {
        Pos { x: clamp(self.x, smaller.x, larger.x), y: clamp(self.y, smaller.y, larger.y) }
    }

    pub fn abs(self) -> (r: Pos)
        requires
            self.x > i64::MIN,
            self.y > i64::MIN,
        ensures
            r.x == spec_abs(self.x as int),
            r.y == spec_abs(self.y as int),
    {
        Pos { x: abs(self.x), y: abs(self.y) }
    }

    /// The sign of each coordinate.
    pub fn signum(self) -> (r: Pos)
        ensures
            r.x == spec_signum(self.x as int),
            r.y == spec_signum(self.y as int),
    {
        Pos { x: signum(self.x), y: signum(self.y) }
    }

    pub fn size(&self) -> (r: i64)
        requires
            self.l1() <= i64::MAX,
        ensures
            r == self.l1(),
    {
        abs(self.x) + abs(self.y)
    }

    pub fn distance_to(&self, other: Pos) -> (r: i64)
        requires
            spec_abs(other.x - self.x) + spec_abs(other.y - self.y) <= i64::MAX,
        ensures
            r == spec_abs(other.x - self.x) + spec_abs(other.y - self.y),
    {
        let d = other - *self;
        d.size()
    }

    pub fn directions_to(&self, other: Pos) -> (r: Vec<Direction>)
        ensures
            r@ == self.toward(other),
    {
        let mut directions = Vec::new();
        if other.x > self.x {
            directions.push(Direction::East);
        }
        if other.x < self.x {
            directions.push(Direction::West);
        }
        if other.y > self.y {
            directions.push(Direction::South);
        }
        if other.y < self.y {
            directions.push(Direction::North);
        }
        assert(directions@ =~= self.toward(other));
        directions
    }
}

impl core::default::Default for Pos {
    fn default() -> (p: Pos)
        ensures
            p == (Pos { x: 0, y: 0 }),
    {
        Pos { x: 0, y: 0 }
    }
}

impl core::ops::Add<Pos> for Pos {
    type Output = Pos;

    fn add(self, other: Pos) -> (r: Pos) {
        Pos { x: self.x + other.x, y: self.y + other.y }
    }
}

impl AddSpecImpl<Pos> for Pos {
    open spec fn obeys_add_spec() -> bool {
        true
    }

    open spec fn add_req(self, other: Pos) -> bool {
        &&& i64::MIN <= self.x + other.x <= i64::MAX
        &&& i64::MIN <= self.y + other.y <= i64::MAX
    }

    open spec fn add_spec(self, other: Pos) -> Pos {
        Pos { x: (self.x + other.x) as i64, y: (self.y + other.y) as i64 }
    }
}

impl core::ops::Add<Direction> for Pos {
    type Output = Pos;

    fn add(self, dir: Direction) -> (r: Pos) {
        let other = dir.to_position();
        Pos { x: self.x + other.x, y: self.y + other.y }
    }
}

impl AddSpecImpl<Direction> for Pos {
    open spec fn obeys_add_spec() -> bool {
        true
    }

    open spec fn add_req(self, dir: Direction) -> bool {
        self.within(i64::MAX - 1)
    }

    open spec fn add_spec(self, dir: Direction) -> Pos {
        self.step(dir)
    }
}

impl core::ops::Sub<Pos> for Pos {
    type Output = Pos;

    fn sub(self, other: Pos) -> (r: Pos) {
        Pos { x: self.x - other.x, y: self.y - other.y }
    }
}

impl SubSpecImpl<Pos> for Pos {
    open spec fn obeys_sub_spec() -> bool {
        true
    }

    open spec fn sub_req(self, other: Pos) -> bool {
        &&& i64::MIN <= self.x - other.x <= i64::MAX
        &&& i64::MIN <= self.y - other.y <= i64::MAX
    }

    open spec fn sub_spec(self, other: Pos) -> Pos {
        Pos { x: (self.x - other.x) as i64, y: (self.y - other.y) as i64 }
    }
}

impl core::ops::Neg for Pos {
    type Output = Pos;

    fn neg(self) -> (r: Pos) {
        Pos { x: -self.x, y: -self.y }
    }
}

impl NegSpecImpl for Pos {
    open spec fn obeys_neg_spec() -> bool {
        true
    }

    open spec fn neg_req(self) -> bool {
        self.x > i64::MIN && self.y > i64::MIN
    }

    open spec fn neg_spec(self) -> Pos {
        Pos { x: (-self.x) as i64, y: (-self.y) as i64 }
    }
}

impl core::ops::Mul<i64> for Pos {
    type Output = Pos;

    fn mul(self, factor: i64) -> (r: Pos) {
        Pos { x: self.x * factor, y: self.y * factor }
    }
}

impl MulSpecImpl<i64> for Pos {
    open spec fn obeys_mul_spec() -> bool {
        true
    }

    open spec fn mul_req(self, factor: i64) -> bool {
        &&& i64::MIN <= self.x * factor <= i64::MAX
        &&& i64::MIN <= self.y * factor <= i64::MAX
    }

    open spec fn mul_spec(self, factor: i64) -> Pos {
        Pos { x: (self.x * factor) as i64, y: (self.y * factor) as i64 }
    }
}

} // verus!
