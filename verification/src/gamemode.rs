use vstd::prelude::*;
use crate::errors::WorldError;
use crate::text::str_eq;

verus! {

#[derive(Debug, Clone, Copy, PartialEq, Eq, Structural)]
pub enum GameMode {
    PillarDefence,
    Survival,
    PvP,
}

impl GameMode {
    /// The mode that a name stands for; `coop` is another name for survival.
    pub open spec fn named(name: Seq<char>) -> Option<GameMode> {
        if name == "coop"@ || name == "survival"@ {
            Some(GameMode::Survival)
        } else if name == "pillars"@ {
            Some(GameMode::PillarDefence)
        } else if name == "pvp"@ {
            Some(GameMode::PvP)
        } else {
            None
        }
    }

    pub fn has_pillars(self) -> (b: bool)
        ensures
            b == (self == GameMode::PillarDefence),
    {
        self == Self::PillarDefence
    }

    /// Reads the name of a mode.
    pub fn from_name(s: &str) -> (r: Result<GameMode, WorldError>)
        ensures
            r == (match GameMode::named(s@) {
                Some(mode) => Ok::<GameMode, WorldError>(mode),
                None => Err(WorldError::InvalidGameMode),
            }),
    {
        if str_eq(s, "coop") || str_eq(s, "survival") {
            Ok(GameMode::Survival)
        } else if str_eq(s, "pillars") {
            Ok(GameMode::PillarDefence)
        } else if str_eq(s, "pvp") {
            Ok(GameMode::PvP)
        } else {
            Err(WorldError::InvalidGameMode)
        }
    }
}

impl core::str::FromStr for GameMode {
    type Err = WorldError;

    fn from_str(s: &str) -> (r: Result<GameMode, WorldError>)
        ensures
            r == (match GameMode::named(s@) {
                Some(mode) => Ok::<GameMode, WorldError>(mode),
                None => Err(WorldError::InvalidGameMode),
            }),
    {
        GameMode::from_name(s)
    }
}

} // verus!
