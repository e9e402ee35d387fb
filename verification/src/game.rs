//! The two games whose archives the codec reads and writes.

use vstd::prelude::*;

verus! {

/// The tag of the first game: the bytes `rc00` read as a little-endian
/// integer.
pub const DNG_TAG: u32 = 0x3030_6372;

/// The tag of the second game: the bytes `sadk` read as a little-endian
/// integer.
pub const ADK_TAG: u32 = 0x6b64_6173;

/// The game that an archive member belongs to.
#[derive(Debug, Clone, Copy, PartialEq, Eq, Structural, PartialOrd, Ord)]
pub enum Game {
    /// The game tagged `rc00`.
    Dng,
    /// The game tagged `sadk`.
    Adk,
}

/// The tag that stands for `game` in a file header.
pub open spec fn tag_of(game: Game) -> u32 {
    match game {
        Game::Dng => DNG_TAG,
        Game::Adk => ADK_TAG,
    }
}

/// The game that `tag` stands for, if any.
pub open spec fn game_of(tag: u32) -> Option<Game> {
    if tag == DNG_TAG {
        Some(Game::Dng)
    } else if tag == ADK_TAG {
        Some(Game::Adk)
    } else {
        None
    }
}

impl Game {
    /// The tag that stands for this game in a file header.
    pub fn tag(self) -> (tag: u32)
        ensures
            tag == tag_of(self),
    {
        match self {
            Game::Dng => DNG_TAG,
            Game::Adk => ADK_TAG,
        }
    }

    /// The game that `tag` stands for, if any.
    pub fn from_tag(tag: u32) -> (game: Option<Game>)
        ensures
            game == game_of(tag),
    {
        if tag == DNG_TAG {
            Some(Game::Dng)
        } else if tag == ADK_TAG {
            Some(Game::Adk)
        } else {
            None
        }
    }
}

} // verus!
