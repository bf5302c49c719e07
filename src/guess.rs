use vstd::prelude::*;
use crate::contiguous_tiles::ContiguousPositions;
use crate::position::Position;

verus! {

/// The shortest path a player may submit.
pub const MIN_GUESS_LEN: usize = 4;

/// A path submitted by a player.
#[derive(PartialEq, Eq, PartialOrd, Ord, Hash, Debug)]
pub struct Guess {
    pub positions: ContiguousPositions,
}

#[derive(Debug, Clone, Copy, PartialEq, Eq, Structural)]
pub enum CreateGuessError {
    TooShort,
}

impl View for Guess {
    type V = Seq<Position>;

    open spec fn view(&self) -> Seq<Position> {
        self.positions@
    }
}

impl Guess {
    /// Accepts paths of at least four positions.
    pub fn new(positions: ContiguousPositions) -> (r: Result<Self, CreateGuessError>)
        ensures
            r is Err <==> positions@.len() < MIN_GUESS_LEN,
            r is Err ==> r == Err::<Self, _>(CreateGuessError::TooShort),
            r matches Ok(g) ==> g@ == positions@,
    {
        if positions.len() < MIN_GUESS_LEN {
            return Err(CreateGuessError::TooShort);
        }
        Ok(Self { positions })
    }
}

impl Clone for Guess {
    fn clone(&self) -> (r: Self)
        ensures
            r@ == self@,
    {
        Guess { positions: self.positions.clone() }
    }
}

} // verus!
