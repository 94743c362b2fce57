use vstd::prelude::*;
use crate::sprite::Sprite;

verus! {

/// Something that lies on the ground until a player walks onto it.
#[derive(Debug, Clone, Copy, PartialEq, Eq, Structural)]
pub enum Item {
    /// Restores the full health of the player who picks it up.
    Health,
}

impl Item {
    pub open spec fn spec_sprite(self) -> Sprite {
        match self {
            Item::Health => Sprite::Custom("health"),
        }
    }

    pub fn sprite(&self) -> (s: Sprite)
        ensures
            s == self.spec_sprite(),
    {
        Sprite::new(
            match self {
                Self::Health => "health",
            },
        )
    }
}

} // verus!
