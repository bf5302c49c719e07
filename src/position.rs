use vstd::prelude::*;

verus! {

/// A grid coordinate: `row` counts down from the top, `col` across from the left.
#[derive(Copy, Clone, PartialEq, Eq, Structural, PartialOrd, Ord, Hash, Debug)]
pub struct Position {
    pub row: i32,
    pub col: i32,
}

/// Two positions are adjacent when they differ by at most one in each
/// coordinate (Chebyshev distance at most 1, diagonals included).
pub open spec fn adjacent(a: Position, b: Position) -> bool {
    -1 <= a.row - b.row <= 1 && -1 <= a.col - b.col <= 1
}

impl Position {
    pub fn new(row: i32, col: i32) -> (r: Self)
        ensures
            r.row == row,
            r.col == col,
    {
        Self { row, col }
    }

    pub fn from_usize(row: usize, col: usize) -> (r: Self)
        requires
            row <= i32::MAX,
            col <= i32::MAX,
        ensures
            r.row == row,
            r.col == col,
    {
        Self { row: row as i32, col: col as i32 }
    }

    pub fn is_adjacent_to(&self, other: &Position) -> (r: bool)
        ensures
            r == adjacent(*self, *other),
    {
        let dr: i64 = self.row as i64 - other.row as i64;
        let dc: i64 = self.col as i64 - other.col as i64;
        -1 <= dr && dr <= 1 && -1 <= dc && dc <= 1
    }

    pub fn left(self) -> (r: Self)
        requires
            self.col > i32::MIN,
        ensures
            r.row == self.row,
            r.col == self.col - 1,
    {
        Self { row: self.row, col: self.col - 1 }
    }

    pub fn right(self) -> (r: Self)
        requires
            self.col < i32::MAX,
        ensures
            r.row == self.row,
            r.col == self.col + 1,
    {
        Self { row: self.row, col: self.col + 1 }
    }

    pub fn up(self) -> (r: Self)
        requires
            self.row > i32::MIN,
        ensures
            r.row == self.row - 1,
            r.col == self.col,
    {
        Self { row: self.row - 1, col: self.col }
    }

    pub fn down(self) -> (r: Self)
        requires
            self.row < i32::MAX,
        ensures
            r.row == self.row + 1,
            r.col == self.col,
    {
        Self { row: self.row + 1, col: self.col }
    }
}

/// A letter standing at a position of the grid.
#[derive(Clone, PartialEq, Eq, Structural, Hash, Debug)]
pub struct Tile {
    pub letter: char,
    pub position: Position,
}

impl Tile {
    pub fn new(letter: char, row: i32, col: i32) -> (r: Self)
        ensures
            r.letter == letter,
            r.position == (Position { row, col }),
    {
        Tile { letter, position: Position { row, col } }
    }

    pub fn can_connect_to(&self, other: &Tile) -> (r: bool)
        ensures
            r == adjacent(self.position, other.position),
    {
        self.position.is_adjacent_to(&other.position)
    }
}

} // verus!
