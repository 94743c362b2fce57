use vstd::prelude::*;
use crate::creature::Health;
use crate::pos::Pos;
use crate::sprite::Sprite;

verus! {

/// The whole field: for every cell, row after row, the place of its
/// stack of sprites in `mapping`.
#[derive(Debug, PartialEq, Eq)]
pub struct FieldMessage {
    pub width: i64,
    pub height: i64,
    pub field: Vec<usize>,
    pub mapping: Vec<Vec<Sprite>>,
}

/// What a player is told after a tick. Of `field` and `change` one is
/// there: the whole field for a player who has not had it yet, else the
/// cells that have changed, each with its new stack of sprites.
#[derive(Debug, PartialEq, Eq)]
pub struct WorldMessage {
    pub field: Option<FieldMessage>,
    pub change: Option<Vec<(Pos, Vec<Sprite>)>>,
    pub pos: Option<Pos>,
    /// The health of the player's body and the most it can have.
    pub health: Option<(Health, Health)>,
    /// The names of the weapons of the player's body and the selected slot.
    pub weapons: Option<(Vec<&'static str>, usize)>,
    /// Notices to show once: a tag, a text and nothing.
    pub sounds: Option<Vec<(String, String, Option<String>)>>,
}

impl core::default::Default for WorldMessage {
    fn default() -> (m: WorldMessage)
        ensures
            m.field is None,
            m.change is None,
            m.pos is None,
            m.health is None,
            m.weapons is None,
            m.sounds is None,
    {
        WorldMessage { field: None, change: None, pos: None, health: None, weapons: None, sounds: None }
    }
}

} // verus!
