use vstd::prelude::*;

verus! {

/// The ways in which a request to the world can fail.
#[derive(Debug, Clone, Copy, PartialEq, Eq, Structural)]
pub enum WorldError {
    /// A player with this id has joined already.
    PlayerAlreadyExists,
    /// No player with this id has joined.
    PlayerNotFound,
    /// The text names no game mode.
    InvalidGameMode,
    /// The text names no map, or the map's parts do not fit together.
    InvalidMap,
    /// A row of a map holds a character that stands for no tile.
    MalformedTile(char),
}

} // verus!
