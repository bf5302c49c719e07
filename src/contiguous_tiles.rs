use vstd::prelude::*;
use crate::position::{adjacent, Position};

verus! {

/// Some position occurs twice in `s`.
pub open spec fn has_repeats(s: Seq<Position>) -> bool {
    exists|i: int, j: int| 0 <= i < j < s.len() && s[i] == s[j]
}

/// The step from `s[i]` to `s[i + 1]` moves to an adjacent position.
pub open spec fn step_is_adjacent(s: Seq<Position>, i: int) -> bool {
    adjacent(s[i], s[i + 1])
}

/// Every consecutive pair of `s` is adjacent.
pub open spec fn is_connected(s: Seq<Position>) -> bool {
    forall|i: int| 0 <= i < s.len() - 1 ==> #[trigger] step_is_adjacent(s, i)
}

/// A contiguous path: no position twice, each step to an adjacent position.
pub open spec fn is_path(s: Seq<Position>) -> bool {
    !has_repeats(s) && is_connected(s)
}

/// An ordered path through the grid: no position occurs twice and every
/// consecutive pair of positions is adjacent.
#[derive(Debug, Eq, Hash, PartialOrd, Ord)]
pub struct ContiguousPositions(Vec<Position>);

#[derive(Debug, Clone, Copy, PartialEq, Eq, Structural)]
pub enum CreateContiguousTilesError {
    Disconnected,
    HasDuplicates,
}

impl View for ContiguousPositions {
    type V = Seq<Position>;

    closed spec fn view(&self) -> Seq<Position> {
        self.0@
    }
}

impl ContiguousPositions {
    #[verifier::type_invariant]
    spec fn inv(self) -> bool {
        is_path(self.0@)
    }

    /// Validates `positions` as a path. Duplicates are reported before
    /// disconnection.
    pub fn new(positions: Vec<Position>) -> (r: Result<Self, CreateContiguousTilesError>)
        ensures
            r is Ok <==> is_path(positions@),
            r matches Ok(p) ==> p@ == positions@,
            r == Err::<Self, _>(CreateContiguousTilesError::HasDuplicates) <==> has_repeats(
                positions@,
            ),
            r == Err::<Self, _>(CreateContiguousTilesError::Disconnected) <==> !has_repeats(
                positions@,
            ) && !is_connected(positions@),
    {
        if Self::has_duplicates(positions.as_slice()) {
            return Err(CreateContiguousTilesError::HasDuplicates);
        }
        if Self::breaks_continuity(positions.as_slice()) {
            return Err(CreateContiguousTilesError::Disconnected);
        }
        Ok(Self(positions))
    }

    /// The path's positions, in order.
    pub fn inner_value(&self) -> (r: Vec<Position>)
        ensures
            r@ == self@,
    {
        let v = self.0.clone();
        proof {
            assert(v@ =~= self.0@);
        }
        v
    }

    pub fn len(&self) -> (r: usize)
        ensures
            r == self@.len(),
    {
        self.0.len()
    }

    /// Iterates over the path's positions, in order.
    pub fn iter(&self) -> (r: std::slice::Iter<'_, Position>)
        ensures
            vstd::std_specs::slice::into_iter_elts(r) == self@,
    {
        let it = self.0.iter();
        proof {
            assert(self.0@.as_ref().unref() =~= self.0@);
        }
        it
    }

    /// The path's positions as a slice.
    pub(crate) fn as_slice(&self) -> (r: &[Position])
        ensures
            r@ == self@,
    {
        self.0.as_slice()
    }

    fn breaks_continuity(positions: &[Position]) -> (r: bool)
        ensures
            r == !is_connected(positions@),
    {
        let n = positions.len();
        let mut i: usize = 1;
        while i < n
            invariant
                n == positions@.len(),
                1 <= i <= n || n == 0,
                forall|k: int| 0 <= k < i - 1 ==> #[trigger] step_is_adjacent(positions@, k),
            decreases n - i,
        {
            if !positions[i - 1].is_adjacent_to(&positions[i]) {
                assert(!step_is_adjacent(positions@, i - 1));
                return true;
            }
            assert(step_is_adjacent(positions@, i - 1));
            i = i + 1;
        }
        false
    }

    fn has_duplicates(positions: &[Position]) -> (r: bool)
        ensures
            r == has_repeats(positions@),
    {
        let n = positions.len();
        let mut j: usize = 0;
        while j < n
            invariant
                n == positions@.len(),
                j <= n,
                forall|a: int, b: int| 0 <= a < b < j ==> positions@[a] != positions@[b],
            decreases n - j,
        {
            let mut i: usize = 0;
            while i < j
                invariant
                    n == positions@.len(),
                    i <= j < n,
                    forall|a: int, b: int| 0 <= a < b < j ==> positions@[a] != positions@[b],
                    forall|a: int| 0 <= a < i ==> positions@[a] != positions@[j as int],
                decreases j - i,
            {
                if positions[i] == positions[j] {
                    return true;
                }
                i = i + 1;
            }
            j = j + 1;
        }
        false
    }
}

/// Two paths are equal when they visit the same positions in the same order.
impl PartialEq for ContiguousPositions {
    fn eq(&self, other: &Self) -> (r: bool) {
        let n = self.0.len();
        if n != other.0.len() {
            return false;
        }
        let mut i: usize = 0;
        while i < n
            invariant
                n == self.0@.len(),
                n == other.0@.len(),
                i <= n,
                forall|k: int| 0 <= k < i ==> self.0@[k] == other.0@[k],
            decreases n - i,
        {
            if self.0[i] != other.0[i] {
                return false;
            }
            i = i + 1;
        }
        proof {
            assert(self.0@ =~= other.0@);
        }
        true
    }
}

impl vstd::std_specs::cmp::PartialEqSpecImpl for ContiguousPositions {
    open spec fn obeys_eq_spec() -> bool {
        true
    }

    open spec fn eq_spec(&self, other: &Self) -> bool {
        self@ == other@
    }
}

impl Clone for ContiguousPositions {
    fn clone(&self) -> (r: Self)
        ensures
            r@ == self@,
    {
        proof {
            use_type_invariant(self);
        }
        Self(self.inner_value())
    }
}

} // verus!
