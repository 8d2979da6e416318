//! Identifiers of the sprites that visible entities are drawn with.

use vstd::prelude::*;

verus! {

/// A sprite that an entity can be drawn with.
#[derive(Clone, Copy, Debug, PartialEq, Eq, Structural, Hash)]
pub enum TileId {
    Player,
    Grunt,
}

impl TileId {
    /// The file stem of the sprite image.
    pub open spec fn stem(self) -> Seq<char> {
        match self {
            TileId::Player => seq!['p', 'l', 'a', 'y', 'e', 'r'],
            TileId::Grunt => seq!['g', 'r', 'u', 'n', 't'],
        }
    }

    /// The file stem under which the sprite image is stored.
    pub fn filename(&self) -> (r: &'static str)
        ensures
            r@ == self.stem(),
    {
        match self {
            TileId::Player => {
                proof {
                    reveal_strlit("player");
                }
                "player"
            },
            TileId::Grunt => {
                proof {
                    reveal_strlit("grunt");
                }
                "grunt"
            },
        }
    }
}

} // verus!
