//! Small values that the other parts share.

use vstd::prelude::*;

verus! {

/// The number of a texture. What colour or material it stands for is the
/// presenter's business.
#[derive(Clone, Copy, Debug, PartialEq, Eq, Hash, Structural)]
pub struct TextureID(pub u8);

/// The mark of an entity that a player steers.
#[derive(Clone, Copy, Debug, Default, PartialEq, Eq, Structural)]
pub struct IsPlayer;

impl Default for TextureID {
    fn default() -> (id: Self)
        ensures
            id == TextureID(0),
    {
        TextureID(0)
    }
}

} // verus!
