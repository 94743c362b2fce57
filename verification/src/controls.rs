use vstd::prelude::*;
use crate::playerid::PlayerId;
use crate::pos::{Direction, GRID_LIMIT, Pos};
use crate::sprite::Sprite;

verus! {

/// What a creature is asked to do in a tick.
#[derive(Debug, Clone, Copy, PartialEq, Eq)]
pub enum Control {
    Move(Direction),
    /// Fire the selected weapon, after turning where a direction is given.
    Shoot(Option<Direction>),
    /// Fire the selected weapon along a vector.
    ShootPrecise(Pos),
    Suicide,
    NextWeapon,
    PreviousWeapon,
}

impl Control {
    /// A shot vector stays within the limit of the grid.
    pub open spec fn wf(self) -> bool {
        match self {
            Control::ShootPrecise(aim) => aim.within(GRID_LIMIT as int),
            _ => true,
        }
    }

    /// Whether the control is one that the world can carry out.
    pub fn is_valid(&self) -> (b: bool)
        ensures
            b == self.wf(),
    {
        match self {
            Control::ShootPrecise(aim) => -GRID_LIMIT <= aim.x && aim.x <= GRID_LIMIT && -GRID_LIMIT <= aim.y
                && aim.y <= GRID_LIMIT,
            _ => true,
        }
    }
}

/// What the connections ask of the world.
#[derive(Debug, Clone, Copy, PartialEq, Eq)]
pub enum Action {
    Join(PlayerId, Sprite),
    Leave(PlayerId),
    Input(PlayerId, Control),
}

} // verus!
