use vstd::prelude::*;

verus! {

/// One of the four piece colors of the game.
#[derive(Copy, Clone, Debug, PartialEq, Eq, Hash, Structural)]
pub enum PlayerColor {
    Red,
    Blue,
    Yellow,
    Green,
}

impl PlayerColor {
    /// Position of this color in every color-indexed table (goals, home bases).
    pub open spec fn idx(self) -> int {
        match self {
            PlayerColor::Red => 0,
            PlayerColor::Blue => 1,
            PlayerColor::Yellow => 2,
            PlayerColor::Green => 3,
        }
    }

    /// Runtime counterpart of [`PlayerColor::idx`].
    pub fn index(self) -> (r: usize)
        ensures
            r == self.idx(),
    {
        match self {
            PlayerColor::Red => 0,
            PlayerColor::Blue => 1,
            PlayerColor::Yellow => 2,
            PlayerColor::Green => 3,
        }
    }

    /// The color whose table position is `i`; inverse of [`PlayerColor::index`].
    pub fn from_index(i: usize) -> (r: PlayerColor)
        requires
            i < 4,
        ensures
            r.idx() == i,
    {
        if i == 0 {
            PlayerColor::Red
        } else if i == 1 {
            PlayerColor::Blue
        } else if i == 2 {
            PlayerColor::Yellow
        } else {
            PlayerColor::Green
        }
    }
}

} // verus!
