use vstd::prelude::*;
use crate::answer::Answer;
use crate::contiguous_tiles::ContiguousPositions;
use crate::position::Position;
use std::collections::HashSet;

verus! {

/// A revealed answer path, shown to the player as a hint.
#[derive(Clone, PartialEq, Eq, PartialOrd, Ord, Hash, Debug)]
pub struct Clue {
    positions: ContiguousPositions,
}

impl View for Clue {
    type V = Seq<Position>;

    closed spec fn view(&self) -> Seq<Position> {
        self.positions@
    }
}

impl From<Answer> for Clue {
    fn from(value: Answer) -> (r: Self)
        ensures
            r@ == value.positions@,
    {
        Self { positions: value.positions }
    }
}

impl vstd::std_specs::convert::FromSpecImpl<Answer> for Clue {
    open spec fn obeys_from_spec() -> bool {
        false
    }

    closed spec fn from_spec(v: Answer) -> Self {
        Self { positions: v.positions }
    }
}

impl Clue {
    /// The clue's positions as a set, which forgets their order.
    pub fn tiles_randomized(&self) -> (r: HashSet<Position>)
        ensures
            vstd::std_specs::hash::obeys_key_model::<Position>() ==> r@ == self@.to_set(),
    {
        let path = self.positions.as_slice();
        let mut set: HashSet<Position> = HashSet::new();
        let mut k: usize = 0;
        while k < path.len()
            invariant
                path@ == self@,
                k <= path@.len(),
                vstd::std_specs::hash::obeys_key_model::<Position>() ==> set@ == path@.take(
                    k as int,
                ).to_set(),
            decreases path@.len() - k,
        {
            set.insert(path[k]);
            proof {
                if vstd::std_specs::hash::obeys_key_model::<Position>() {
                    assert(path@.take(k + 1) =~= path@.take(k as int).push(path@[k as int]));
                    path@.take(k as int).lemma_push_to_set_commute(path@[k as int]);
                }
            }
            k = k + 1;
        }
        assert(path@.take(k as int) =~= path@);
        set
    }
}

} // verus!
