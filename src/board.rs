use vstd::prelude::*;
use crate::answer::{answer_views, Answer, AnswerId, AnswerType, AnswerView};
use crate::clue::Clue;
use crate::contiguous_tiles::{ContiguousPositions, CreateContiguousTilesError};
use crate::guess::Guess;
use crate::position::Position;
use vstd::string::StrSliceExecFns;

verus! {

/// Declares chrono's `NaiveDate`, a board's print date, which the board
/// carries without reading it.
#[verifier::external_type_specification]
#[verifier::external_body]
pub struct ExNaiveDate(chrono::NaiveDate);

/// Relies on chrono's derived `Clone` for `NaiveDate`, a `Copy` type: the clone is the same date.
pub assume_specification[ <chrono::NaiveDate as Clone>::clone ](d: &chrono::NaiveDate) -> (r:
    chrono::NaiveDate)
    ensures
        r == *d,
;

#[derive(Copy, Clone, PartialEq, Eq, Structural, PartialOrd, Ord, Hash, Debug)]
pub struct BoardId(pub u32);

impl BoardId {
    pub fn new(id: u32) -> (r: Self)
        ensures
            r.0 == id,
    {
        BoardId(id)
    }
}

/// A letter of the grid.
#[derive(Copy, Clone, PartialEq, Eq, Structural, PartialOrd, Ord, Hash, Debug)]
pub struct Tile(pub char);

/// The letter grid, row by row.
#[derive(Clone, PartialEq, Eq, PartialOrd, Ord, Hash, Debug)]
pub struct Tiles(pub Vec<Vec<Tile>>);

/// The letters of one row.
pub open spec fn row_letters(row: Vec<Tile>) -> Seq<char> {
    row@.map_values(|t: Tile| t.0)
}

impl View for Tiles {
    type V = Seq<Seq<char>>;

    open spec fn view(&self) -> Seq<Seq<char>> {
        self.0@.map_values(|row: Vec<Tile>| row_letters(row))
    }
}

/// The grid that rows of text describe, one row per string.
pub open spec fn rows_of(strings: Seq<String>) -> Seq<Seq<char>> {
    strings.map_values(|s: String| s@)
}

/// `p` names a cell of `rows`.
pub open spec fn in_grid(rows: Seq<Seq<char>>, p: Position) -> bool {
    0 <= p.row < rows.len() && 0 <= p.col < rows[p.row as int].len()
}

/// Every cell of `rows`.
pub open spec fn grid_positions(rows: Seq<Seq<char>>) -> Set<Position> {
    Set::new(|p: Position| in_grid(rows, p))
}

pub open spec fn letter_at(rows: Seq<Seq<char>>, p: Position) -> char {
    rows[p.row as int][p.col as int]
}

/// The letters along `path`, or `None` when the path leaves the grid.
pub open spec fn word_along(rows: Seq<Seq<char>>, path: Seq<Position>) -> Option<Seq<char>> {
    if forall|k: int| 0 <= k < path.len() ==> in_grid(rows, #[trigger] path[k]) {
        Some(path.map_values(|p: Position| letter_at(rows, p)))
    } else {
        None
    }
}

/// `a` comes before `b` when the grid is read row by row.
pub open spec fn reads_before(a: Position, b: Position) -> bool {
    a.row < b.row || (a.row == b.row && a.col < b.col)
}

/// Every row has the same number of letters, and there is at least one row.
pub open spec fn is_rectangular(rows: Seq<Seq<char>>) -> bool {
    rows.len() > 0 && forall|i: int| 0 <= i < rows.len() ==> #[trigger] rows[i].len() == rows[0].len()
}

/// Position `k` of answer `i`.
pub open spec fn answer_tile(answers: Seq<AnswerView>, i: int, k: int) -> Position {
    answers[i].positions[k]
}

/// `(i, k)` indexes a position of one of the answers.
pub open spec fn is_answer_tile(answers: Seq<AnswerView>, i: int, k: int) -> bool {
    0 <= i < answers.len() && 0 <= k < answers[i].positions.len()
}

/// Some answer's path passes through the cell at `row`, `col`.
pub open spec fn cell_covered(answers: Seq<AnswerView>, row: int, col: int) -> bool {
    exists|i: int, k: int|
        is_answer_tile(answers, i, k) && #[trigger] answer_tile(answers, i, k).row == row
            && answer_tile(answers, i, k).col == col
}

/// Every position on some answer's path.
pub open spec fn answer_positions(answers: Seq<AnswerView>) -> Set<Position> {
    Set::new(|p: Position| cell_covered(answers, p.row as int, p.col as int))
}

/// Every answer lies inside the grid, and every cell of the grid lies on an answer.
pub open spec fn covers_grid(answers: Seq<AnswerView>, rows: Seq<Seq<char>>) -> bool {
    &&& forall|i: int, k: int|
        is_answer_tile(answers, i, k) ==> in_grid(rows, #[trigger] answer_tile(answers, i, k))
    &&& forall|row: int, col: int|
        0 <= row < rows.len() && 0 <= col < rows[row].len() ==> #[trigger] cell_covered(
            answers,
            row,
            col,
        )
}

pub open spec fn is_spangram(answers: Seq<AnswerView>, i: int) -> bool {
    answers[i].answer_type == AnswerType::Spangram
}

/// Exactly one answer is the spangram.
pub open spec fn has_one_spangram(answers: Seq<AnswerView>) -> bool {
    exists|i: int|
        0 <= i < answers.len() && #[trigger] is_spangram(answers, i) && forall|j: int|
            0 <= j < answers.len() && #[trigger] is_spangram(answers, j) ==> j == i
}

/// `i` is the least index below `n` that satisfies `pred`.
pub open spec fn is_first_index(n: int, pred: spec_fn(int) -> bool, i: int) -> bool {
    0 <= i < n && pred(i) && forall|j: int| 0 <= j < i ==> !#[trigger] pred(j)
}

/// The least index below `n` that satisfies `pred`, if there is one.
pub open spec fn first_index(n: int, pred: spec_fn(int) -> bool) -> Option<int> {
    if exists|i: int| is_first_index(n, pred, i) {
        Some(choose|i: int| is_first_index(n, pred, i))
    } else {
        None
    }
}

pub proof fn lemma_first_index_is(n: int, pred: spec_fn(int) -> bool, i: int)
    requires
        is_first_index(n, pred, i),
    ensures
        first_index(n, pred) == Some(i),
{
    let c = choose|c: int| is_first_index(n, pred, c);
    assert(is_first_index(n, pred, c));
    if c < i {
        assert(!pred(c));
    } else if i < c {
        assert(!pred(i));
    }
}

pub proof fn lemma_first_index_none(n: int, pred: spec_fn(int) -> bool)
    requires
        forall|i: int| 0 <= i < n ==> !#[trigger] pred(i),
    ensures
        first_index(n, pred) is None,
{
}

/// When some index below `n` satisfies `pred`, a least one does, and it is no larger.
pub proof fn lemma_first_index_found(n: int, pred: spec_fn(int) -> bool, i: int)
    requires
        0 <= i < n,
        pred(i),
    ensures
        first_index(n, pred) is Some,
        first_index(n, pred)->0 <= i,
    decreases i,
{
    if exists|j: int| 0 <= j < i && #[trigger] pred(j) {
        let j = choose|j: int| 0 <= j < i && #[trigger] pred(j);
        lemma_first_index_found(n, pred, j);
    } else {
        lemma_first_index_is(n, pred, i);
    }
}

/// Holds of the indices of answers whose path is exactly `path`.
pub open spec fn has_path(answers: Seq<Answer>, path: Seq<Position>) -> spec_fn(int) -> bool {
    |i: int| answers[i].positions@ == path
}

/// Holds of the indices of answers whose id is not in `found`.
pub open spec fn not_found(answers: Seq<Answer>, found: Seq<AnswerId>) -> spec_fn(int) -> bool {
    |i: int| !found.contains(answers[i].id)
}

/// The first answer, in registration order, whose path is exactly `path`.
pub open spec fn first_match(answers: Seq<Answer>, path: Seq<Position>) -> Option<int> {
    first_index(answers.len() as int, has_path(answers, path))
}

/// When some answer's path is `path`, a first one is, no later than it.
pub proof fn lemma_first_match_found(answers: Seq<Answer>, path: Seq<Position>, at: int)
    requires
        0 <= at < answers.len(),
        answers[at].positions@ == path,
    ensures
        first_match(answers, path) matches Some(j) && 0 <= j <= at && answers[j].positions@ == path,
{
    let n = answers.len() as int;
    let pred = has_path(answers, path);
    lemma_first_index_found(n, pred, at);
    let c = choose|c: int| is_first_index(n, pred, c);
    assert(is_first_index(n, pred, c));
}

/// The first match is a match.
pub proof fn lemma_first_match_is_match(answers: Seq<Answer>, path: Seq<Position>)
    requires
        first_match(answers, path) is Some,
    ensures
        0 <= first_match(answers, path)->0 < answers.len(),
        answers[first_match(answers, path)->0].positions@ == path,
{
    let n = answers.len() as int;
    let pred = has_path(answers, path);
    assert(is_first_index(n, pred, choose|c: int| is_first_index(n, pred, c)));
}

/// The first answer, in registration order, whose id is not in `found`.
pub open spec fn first_unfound(answers: Seq<Answer>, found: Seq<AnswerId>) -> Option<int> {
    first_index(answers.len() as int, not_found(answers, found))
}

/// Relies on `String::push`: appends one character.
#[verifier::external_body]
fn push_char(s: &mut String, c: char)
    ensures
        final(s)@ == old(s)@.push(c),
{
    s.push(c);
}

impl Tiles {
    pub fn new(tiles: Vec<Vec<Tile>>) -> (r: Self)
        ensures
            r.0@ == tiles@,
    {
        Self(tiles)
    }

    /// One row of tiles for each string, one tile for each character.
    pub fn from_strings(strings: &[String]) -> (r: Self)
        ensures
            r@ == rows_of(strings@),
    {
        let mut rows: Vec<Vec<Tile>> = Vec::new();
        let mut i: usize = 0;
        while i < strings.len()
            invariant
                i <= strings@.len(),
                rows@.len() == i,
                forall|k: int| 0 <= k < i ==> #[trigger] row_letters(rows@[k]) == strings@[k]@,
            decreases strings@.len() - i,
        {
            let text: &str = strings[i].as_str();
            let width = text.unicode_len();
            let mut row: Vec<Tile> = Vec::new();
            let mut j: usize = 0;
            while j < width
                invariant
                    width == text@.len(),
                    j <= width,
                    row@.len() == j,
                    forall|k: int| 0 <= k < j ==> #[trigger] row@[k].0 == text@[k],
                decreases width - j,
            {
                row.push(Tile(text.get_char(j)));
                j = j + 1;
            }
            assert(row_letters(row) =~= text@);
            rows.push(row);
            i = i + 1;
        }
        let r = Tiles::new(rows);
        assert(r@ =~= rows_of(strings@));
        r
    }

    /// The tile at `position`, or `None` outside the grid.
    pub fn at_position(&self, position: &Position) -> (r: Option<Tile>)
        ensures
            r == (if in_grid(self@, *position) {
                Some(Tile(letter_at(self@, *position)))
            } else {
                None
            }),
    {
        if position.row < 0 || position.col < 0 {
            return None;
        }
        let row = position.row as usize;
        let col = position.col as usize;
        if row >= self.0.len() {
            return None;
        }
        let tiles = &self.0[row];
        assert(tiles@.len() == self@[row as int].len());
        if col >= tiles.len() {
            return None;
        }
        Some(tiles[col])
    }

    /// Every position of the grid, read row by row.
    pub fn all_positions(&self) -> (r: Vec<Position>)
        requires
            self@.len() <= i32::MAX + 1,
            forall|i: int| 0 <= i < self@.len() ==> #[trigger] self@[i].len() <= i32::MAX + 1,
        ensures
            r@.to_set() == grid_positions(self@),
            forall|a: int, b: int| 0 <= a < b < r@.len() ==> reads_before(r@[a], r@[b]),
    {
        let mut r: Vec<Position> = Vec::new();
        let mut i: usize = 0;
        while i < self.0.len()
            invariant
                i <= self@.len(),
                self@.len() <= i32::MAX + 1,
                forall|k: int| 0 <= k < self@.len() ==> #[trigger] self@[k].len() <= i32::MAX + 1,
                forall|q: Position| r@.contains(q) <==> in_grid(self@, q) && q.row < i,
                forall|a: int, b: int| 0 <= a < b < r@.len() ==> reads_before(r@[a], r@[b]),
                forall|a: int| 0 <= a < r@.len() ==> #[trigger] r@[a].row < i,
            decreases self@.len() - i,
        {
            let width = self.0[i].len();
            assert(width == self@[i as int].len());
            let mut j: usize = 0;
            while j < width
                invariant
                    i < self@.len(),
                    width == self@[i as int].len(),
                    i <= i32::MAX,
                    width <= i32::MAX + 1,
                    j <= width,
                    forall|q: Position|
                        r@.contains(q) <==> in_grid(self@, q) && (q.row < i || (q.row == i
                            && q.col < j)),
                    forall|a: int, b: int| 0 <= a < b < r@.len() ==> reads_before(r@[a], r@[b]),
                    forall|a: int|
                        0 <= a < r@.len() ==> #[trigger] r@[a].row < i || (r@[a].row == i
                            && r@[a].col < j),
                decreases width - j,
            {
                let p = Position::from_usize(i, j);
                let ghost before = r@;
                r.push(p);
                proof {
                    assert forall|q: Position|
                        r@.contains(q) <==> in_grid(self@, q) && (q.row < i || (q.row == i
                            && q.col < j + 1)) by {
                        if q == p {
                            assert(r@[before.len() as int] == p);
                        }
                        if r@.contains(q) && q != p {
                            let a = choose|a: int| 0 <= a < r@.len() && r@[a] == q;
                            assert(before[a] == q);
                            assert(before.contains(q));
                        }
                        if in_grid(self@, q) && (q.row < i || (q.row == i && q.col < j)) {
                            assert(before.contains(q));
                            let a = choose|a: int| 0 <= a < before.len() && before[a] == q;
                            assert(r@[a] == q);
                        }
                    }
                }
                j = j + 1;
            }
            i = i + 1;
        }
        proof {
            assert forall|q: Position| r@.to_set().contains(q) <==> grid_positions(self@).contains(q) by {
                if in_grid(self@, q) {
                    assert(r@.contains(q));
                }
            }
            assert(r@.to_set() =~= grid_positions(self@));
        }
        r
    }

    /// The letters along `positions`, or `None` when the path leaves the grid.
    pub fn get_word(&self, positions: &ContiguousPositions) -> (r: Option<String>)
        ensures
            r is Some <==> word_along(self@, positions@) is Some,
            r matches Some(w) ==> w@ == word_along(self@, positions@)->0,
    {
        let path = positions.as_slice();
        let mut word = String::new();
        let mut k: usize = 0;
        while k < path.len()
            invariant
                path@ == positions@,
                k <= path@.len(),
                forall|m: int| 0 <= m < k ==> in_grid(self@, #[trigger] path@[m]),
                word@ == path@.take(k as int).map_values(|p: Position| letter_at(self@, p)),
            decreases path@.len() - k,
        {
            match self.at_position(&path[k]) {
                Some(tile) => {
                    push_char(&mut word, tile.0);
                    assert(word@ =~= path@.take(k + 1).map_values(|p: Position| letter_at(self@, p)));
                },
                None => {
                    return None;
                },
            }
            k = k + 1;
        }
        assert(path@.take(k as int) =~= path@);
        Some(word)
    }
}

#[derive(Clone, Copy, PartialEq, Eq, Structural, Debug)]
pub struct Dimensions {
    pub width: usize,
    pub height: usize,
}

/// One day's puzzle: the grid and the answers hidden in it.
#[derive(Clone, Debug)]
pub struct Board {
    pub id: BoardId,
    pub print_date: chrono::NaiveDate,
    pub editor: String,
    pub clue: String,
    pub answers: Vec<Answer>,
    pub tiles: Tiles,
    pub dimensions: Dimensions,
}

#[derive(Debug, Clone, Copy, PartialEq, Eq, Structural)]
pub enum InvalidBoard {
    InconsistentDimensions,
    AnswersDontCoverAllTiles,
    MissingOrDuplicateSpangram,
    InvalidAnswerPath(CreateContiguousTilesError),
}

#[derive(Debug, PartialEq, Eq)]
pub enum FoundAnswer {
    NotAnswer,
    Found(Answer),
}

/// Whether every position of every answer lies in the grid.
fn answers_within_grid(answers: &Vec<Answer>, tiles: &Tiles) -> (r: bool)
    ensures
        r == forall|i: int, k: int|
            is_answer_tile(answer_views(answers@), i, k) ==> in_grid(tiles@, #[trigger] answer_tile(answer_views(answers@), i, k)),
{
    let mut i: usize = 0;
    while i < answers.len()
        invariant
            i <= answers@.len(),
            forall|a: int, k: int|
                0 <= a < i && is_answer_tile(answer_views(answers@), a, k) ==> in_grid(
                    tiles@,
                    #[trigger] answer_tile(answer_views(answers@), a, k),
                ),
        decreases answers@.len() - i,
    {
        let path = answers[i].positions.as_slice();
        let mut k: usize = 0;
        while k < path.len()
            invariant
                i < answers@.len(),
                path@ == answer_views(answers@)[i as int].positions,
                k <= path@.len(),
                forall|a: int, m: int|
                    0 <= a < i && is_answer_tile(answer_views(answers@), a, m) ==> in_grid(
                        tiles@,
                        #[trigger] answer_tile(answer_views(answers@), a, m),
                    ),
                forall|m: int| 0 <= m < k ==> in_grid(tiles@, #[trigger] answer_tile(answer_views(answers@), i as int, m)),
            decreases path@.len() - k,
        {
            if tiles.at_position(&path[k]).is_none() {
                assert(!in_grid(tiles@, answer_tile(answer_views(answers@), i as int, k as int)));
                return false;
            }
            k = k + 1;
        }
        i = i + 1;
    }
    true
}

/// Whether some answer's path passes through `p`.
fn covers_position(answers: &Vec<Answer>, p: Position) -> (r: bool)
    ensures
        r == cell_covered(answer_views(answers@), p.row as int, p.col as int),
{
    let mut i: usize = 0;
    while i < answers.len()
        invariant
            i <= answers@.len(),
            forall|a: int, k: int|
                0 <= a < i && is_answer_tile(answer_views(answers@), a, k) ==> #[trigger] answer_tile(answer_views(answers@), a, k) != p,
        decreases answers@.len() - i,
    {
        let path = answers[i].positions.as_slice();
        let mut k: usize = 0;
        while k < path.len()
            invariant
                i < answers@.len(),
                path@ == answer_views(answers@)[i as int].positions,
                k <= path@.len(),
                forall|a: int, m: int|
                    0 <= a < i && is_answer_tile(answer_views(answers@), a, m) ==> #[trigger] answer_tile(answer_views(answers@), a, m) != p,
                forall|m: int| 0 <= m < k ==> #[trigger] answer_tile(answer_views(answers@), i as int, m) != p,
            decreases path@.len() - k,
        {
            if path[k] == p {
                assert(answer_tile(answer_views(answers@), i as int, k as int) == p);
                return true;
            }
            k = k + 1;
        }
        i = i + 1;
    }
    false
}

/// Whether every cell of the grid lies on some answer's path.
fn covers_every_cell(answers: &Vec<Answer>, tiles: &Tiles) -> (r: bool)
    ensures
        r == forall|row: int, col: int|
            0 <= row < tiles@.len() && 0 <= col < tiles@[row].len() ==> #[trigger] cell_covered(
                answer_views(answers@),
                row,
                col,
            ),
{
    let mut i: usize = 0;
    while i < tiles.0.len()
        invariant
            i <= tiles@.len(),
            forall|row: int, col: int|
                0 <= row < i && 0 <= col < tiles@[row].len() ==> #[trigger] cell_covered(
                    answer_views(answers@),
                    row,
                    col,
                ),
        decreases tiles@.len() - i,
    {
        let width = tiles.0[i].len();
        assert(width == tiles@[i as int].len());
        let mut j: usize = 0;
        while j < width
            invariant
                i < tiles@.len(),
                width == tiles@[i as int].len(),
                j <= width,
                forall|row: int, col: int|
                    0 <= row < i && 0 <= col < tiles@[row].len() ==> #[trigger] cell_covered(
                        answer_views(answers@),
                        row,
                        col,
                    ),
                forall|col: int| 0 <= col < j ==> #[trigger] cell_covered(answer_views(answers@), i as int, col),
            decreases width - j,
        {
            if i > i32::MAX as usize || j > i32::MAX as usize {
                // No position of type `Position` reaches this cell.
                assert(!cell_covered(answer_views(answers@), i as int, j as int));
                return false;
            }
            if !covers_position(answers, Position { row: i as i32, col: j as i32 }) {
                return false;
            }
            j = j + 1;
        }
        i = i + 1;
    }
    true
}

/// Whether exactly one answer is the spangram.
fn has_single_spangram(answers: &Vec<Answer>) -> (r: bool)
    ensures
        r == has_one_spangram(answer_views(answers@)),
{
    let mut found: Option<usize> = None;
    let mut i: usize = 0;
    while i < answers.len()
        invariant
            i <= answers@.len(),
            found is None ==> forall|j: int| 0 <= j < i ==> !#[trigger] is_spangram(answer_views(answers@), j),
            found matches Some(f) ==> f < i && is_spangram(answer_views(answers@), f as int) && forall|j: int|
                0 <= j < i && #[trigger] is_spangram(answer_views(answers@), j) ==> j == f,
        decreases answers@.len() - i,
    {
        if answers[i].answer_type == AnswerType::Spangram {
            if let Some(f) = found {
                assert(is_spangram(answer_views(answers@), f as int) && is_spangram(answer_views(answers@), i as int));
                return false;
            }
            found = Some(i);
        }
        i = i + 1;
    }
    found.is_some()
}

/// Whether `id` is one of `ids`.
fn contains_id(ids: &[AnswerId], id: AnswerId) -> (r: bool)
    ensures
        r == ids@.contains(id),
{
    let mut i: usize = 0;
    while i < ids.len()
        invariant
            i <= ids@.len(),
            forall|j: int| 0 <= j < i ==> ids@[j] != id,
        decreases ids@.len() - i,
    {
        if ids[i] == id {
            assert(ids@[i as int] == id);
            return true;
        }
        i = i + 1;
    }
    false
}

impl Board {
    /// A board that construction accepts: a rectangular grid whose cells
    /// are exactly the answers' positions, with exactly one spangram.
    pub open spec fn wf(&self) -> bool {
        &&& is_rectangular(self.tiles@)
        &&& self.dimensions.height == self.tiles@.len()
        &&& self.dimensions.width == self.tiles@[0].len()
        &&& covers_grid(answer_views(self.answers@), self.tiles@)
        &&& has_one_spangram(answer_views(self.answers@))
    }

    fn new(
        id: BoardId,
        editor: String,
        clue: String,
        print_date: chrono::NaiveDate,
        answers: Vec<Answer>,
        tiles: Tiles,
        dimensions: Dimensions,
    ) -> (r: Result<Self, InvalidBoard>)
        requires
            is_rectangular(tiles@),
            dimensions.height == tiles@.len(),
            dimensions.width == tiles@[0].len(),
        ensures
            r == Err::<Self, _>(InvalidBoard::AnswersDontCoverAllTiles) <==> !covers_grid(
                answer_views(answers@),
                tiles@,
            ),
            r == Err::<Self, _>(InvalidBoard::MissingOrDuplicateSpangram) <==> covers_grid(
                answer_views(answers@),
                tiles@,
            ) && !has_one_spangram(answer_views(answers@)),
            r is Ok <==> covers_grid(answer_views(answers@), tiles@) && has_one_spangram(answer_views(answers@)),
            r matches Ok(b) ==> {
                &&& b.id == id
                &&& b.editor == editor
                &&& b.clue == clue
                &&& b.print_date == print_date
                &&& b.answers == answers
                &&& b.tiles == tiles
                &&& b.dimensions == dimensions
                &&& b.wf()
            },
    {
        if !(answers_within_grid(&answers, &tiles) && covers_every_cell(&answers, &tiles)) {
            return Err(InvalidBoard::AnswersDontCoverAllTiles);
        }
        if !has_single_spangram(&answers) {
            return Err(InvalidBoard::MissingOrDuplicateSpangram);
        }
        Ok(Board { id, clue, editor, print_date, answers, tiles, dimensions })
    }

    /// Builds a board from its grid rows. The rows must be non-empty and of
    /// equal width; the answers must cover every cell and nothing else, and
    /// exactly one of them must be the spangram. The checks run in that order.
    pub fn from_string(
        id: BoardId,
        editor: String,
        clue: String,
        print_date: chrono::NaiveDate,
        answers: Vec<Answer>,
        tiles: &[String],
    ) -> (r: Result<Self, InvalidBoard>)
        ensures
            r == Err::<Self, _>(InvalidBoard::InconsistentDimensions) <==> !is_rectangular(
                rows_of(tiles@),
            ),
            r == Err::<Self, _>(InvalidBoard::AnswersDontCoverAllTiles) <==> is_rectangular(
                rows_of(tiles@),
            ) && !covers_grid(answer_views(answers@), rows_of(tiles@)),
            r == Err::<Self, _>(InvalidBoard::MissingOrDuplicateSpangram) <==> is_rectangular(
                rows_of(tiles@),
            ) && covers_grid(answer_views(answers@), rows_of(tiles@)) && !has_one_spangram(answer_views(answers@)),
            r is Ok <==> is_rectangular(rows_of(tiles@)) && covers_grid(answer_views(answers@), rows_of(tiles@))
                && has_one_spangram(answer_views(answers@)),
            r matches Ok(b) ==> {
                &&& b.id == id
                &&& b.editor == editor
                &&& b.clue == clue
                &&& b.print_date == print_date
                &&& b.answers == answers
                &&& b.tiles@ == rows_of(tiles@)
                &&& b.wf()
            },
    {
        let height = tiles.len();
        if height == 0 {
            return Err(InvalidBoard::InconsistentDimensions);
        }
        let width = tiles[0].as_str().unicode_len();
        let mut i: usize = 0;
        while i < height
            invariant
                height == tiles@.len(),
                height > 0,
                width == tiles@[0]@.len(),
                i <= height,
                forall|k: int| 0 <= k < i ==> #[trigger] tiles@[k]@.len() == width,
            decreases height - i,
        {
            if tiles[i].as_str().unicode_len() != width {
                assert(rows_of(tiles@)[i as int].len() != rows_of(tiles@)[0].len());
                return Err(InvalidBoard::InconsistentDimensions);
            }
            i = i + 1;
        }
        assert(is_rectangular(rows_of(tiles@)));
        let tiles = Tiles::from_strings(tiles);
        Board::new(id, editor, clue, print_date, answers, tiles, Dimensions { width, height })
    }

    /// The board's one spangram.
    pub fn spangram(&self) -> (r: &Answer)
        requires
            self.wf(),
        ensures
            r.answer_type == AnswerType::Spangram,
            exists|i: int| 0 <= i < self.answers@.len() && self.answers@[i] == *r,
    {
        let ghost s = choose|s: int|
            0 <= s < self.answers@.len() && #[trigger] is_spangram(answer_views(self.answers@), s)
                && forall|j: int|
                0 <= j < self.answers@.len() && #[trigger] is_spangram(answer_views(self.answers@), j)
                    ==> j == s;
        let mut i: usize = 0;
        while self.answers[i].answer_type != AnswerType::Spangram
            invariant
                0 <= s < self.answers@.len(),
                is_spangram(answer_views(self.answers@), s),
                i <= s,
            decreases s - i,
        {
            assert(!is_spangram(answer_views(self.answers@), i as int));
            assert(i < s < self.answers.len());
            i = i + 1;
        }
        &self.answers[i]
    }

    pub fn hello(&self) -> (r: String)
        ensures
            r@ == "Hello"@,
    {
        "Hello".to_owned()
    }

    /// The first registered answer whose path is exactly the guess's path,
    /// in the same order.
    pub fn guess_is_answer(&self, guess: &Guess) -> (r: FoundAnswer)
        ensures
            r is NotAnswer <==> first_match(self.answers@, guess@) is None,
            r matches FoundAnswer::Found(a) ==> a@ == self.answers@[first_match(
                self.answers@,
                guess@,
            )->0]@,
    {
        let ghost answers = self.answers@;
        let mut i: usize = 0;
        while i < self.answers.len()
            invariant
                answers == self.answers@,
                i <= answers.len(),
                forall|j: int| 0 <= j < i ==> answers[j].positions@ != guess@,
            decreases answers.len() - i,
        {
            if self.answers[i].matches_guess(guess) {
                proof {
                    lemma_first_index_is(
                        answers.len() as int,
                        has_path(answers, guess@),
                        i as int,
                    );
                }
                return FoundAnswer::Found(self.answers[i].clone());
            }
            i = i + 1;
        }
        proof {
            lemma_first_index_none(answers.len() as int, has_path(answers, guess@));
        }
        FoundAnswer::NotAnswer
    }

    /// The path of the first registered answer whose id is not among
    /// `found_answer_ids`.
    pub fn get_next_clue(&self, found_answer_ids: &[AnswerId]) -> (r: Option<Clue>)
        ensures
            r is None <==> first_unfound(self.answers@, found_answer_ids@) is None,
            r matches Some(c) ==> c@ == self.answers@[first_unfound(
                self.answers@,
                found_answer_ids@,
            )->0].positions@,
    {
        let ghost answers = self.answers@;
        let ghost found = found_answer_ids@;
        let mut i: usize = 0;
        while i < self.answers.len()
            invariant
                answers == self.answers@,
                found == found_answer_ids@,
                i <= answers.len(),
                forall|j: int| 0 <= j < i ==> found.contains(#[trigger] answers[j].id),
            decreases answers.len() - i,
        {
            if !contains_id(found_answer_ids, self.answers[i].id) {
                proof {
                    lemma_first_index_is(
                        answers.len() as int,
                        not_found(answers, found),
                        i as int,
                    );
                }
                return Some(Clue::from(self.answers[i].clone()));
            }
            i = i + 1;
        }
        proof {
            lemma_first_index_none(answers.len() as int, not_found(answers, found));
        }
        None
    }

    /// The letters along `positions`, or `None` when the path leaves the grid.
    pub fn get_word(&self, positions: &ContiguousPositions) -> (r: Option<String>)
        ensures
            r is Some <==> word_along(self.tiles@, positions@) is Some,
            r matches Some(w) ==> w@ == word_along(self.tiles@, positions@)->0,
    {
        self.tiles.get_word(positions)
    }
}

/// On a valid board, the positions on the answers' paths are exactly the
/// grid's positions: no cell is missed and no answer leaves the grid.
pub proof fn lemma_answers_cover_exactly_the_grid(board: Board)
    requires
        board.wf(),
    ensures
        answer_positions(answer_views(board.answers@)) == grid_positions(board.tiles@),
{
    let answers = answer_views(board.answers@);
    let rows = board.tiles@;
    assert forall|p: Position| #[trigger] answer_positions(answers).contains(p) <==> grid_positions(
        rows,
    ).contains(p) by {
        if cell_covered(answers, p.row as int, p.col as int) {
            let (i, k) = choose|i: int, k: int|
                is_answer_tile(answers, i, k) && #[trigger] answer_tile(answers, i, k).row == p.row
                    && answer_tile(answers, i, k).col == p.col;
            assert(answer_tile(answers, i, k) == p);
            assert(in_grid(rows, answer_tile(answers, i, k)));
        }
        if in_grid(rows, p) {
            assert(cell_covered(answers, p.row as int, p.col as int));
        }
    }
    assert(answer_positions(answers) =~= grid_positions(rows));
}

/// Clues come in registration order: the next clue is the first answer not
/// yet found, there is none once every answer is found, and finding more
/// answers never moves the next clue back to an earlier answer.
pub proof fn lemma_clues_follow_registration_order(
    answers: Seq<Answer>,
    found: Seq<AnswerId>,
    more_found: Seq<AnswerId>,
)
    requires
        forall|id: AnswerId| found.contains(id) ==> more_found.contains(id),
    ensures
        first_unfound(answers, found) is None <==> forall|i: int|
            0 <= i < answers.len() ==> found.contains(#[trigger] answers[i].id),
        first_unfound(answers, found) matches Some(i) ==> {
            &&& 0 <= i < answers.len()
            &&& !found.contains(answers[i].id)
            &&& forall|j: int| 0 <= j < i ==> found.contains(#[trigger] answers[j].id)
        },
        first_unfound(answers, more_found) matches Some(j) ==> first_unfound(
            answers,
            found,
        ) matches Some(i) && i <= j,
{
    let n = answers.len() as int;
    let pred = not_found(answers, found);
    if first_unfound(answers, found) is None {
        assert forall|i: int| 0 <= i < n implies found.contains(#[trigger] answers[i].id) by {
            if !found.contains(answers[i].id) {
                lemma_first_index_found(n, pred, i);
            }
        }
    } else {
        let i = first_unfound(answers, found)->0;
        assert(is_first_index(n, pred, choose|c: int| is_first_index(n, pred, c)));
        assert forall|j: int| 0 <= j < i implies found.contains(#[trigger] answers[j].id) by {
            assert(!pred(j));
        }
    }
    if first_unfound(answers, more_found) is Some {
        let more_pred = not_found(answers, more_found);
        let j = first_unfound(answers, more_found)->0;
        assert(is_first_index(n, more_pred, choose|c: int| is_first_index(n, more_pred, c)));
        assert(!found.contains(answers[j].id));
        lemma_first_index_found(n, pred, j);
    }
}

} // verus!
