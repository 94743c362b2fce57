use vstd::prelude::*;
use crate::controls::Control;
use crate::sprite::Sprite;

verus! {

/// What the world keeps of a connected player.
#[derive(Debug, Clone, Copy, PartialEq, Eq)]
pub struct Player {
    /// What the player wants its body to do next.
    pub plan: Option<Control>,
    pub sprite: Sprite,
    /// The key of the player's creature; 0 while it has none.
    pub body: usize,
    /// Whether the player has yet to be sent the whole field.
    pub is_new: bool,
}

impl Player {
    /// A player that has just joined: without plan or body.
    pub fn new(sprite: Sprite) -> (p: Player)
        ensures
            p == (Player { plan: None, sprite, body: 0, is_new: true }),
    {
        Player { plan: None, sprite, body: 0, is_new: true }
    }
}

} // verus!
