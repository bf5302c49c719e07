use vstd::prelude::*;
use crate::answer::{answer_views, Answer, AnswerId, AnswerType, AnswerView};
use crate::board::{
    covers_grid, first_index, has_one_spangram, is_rectangular, lemma_first_index_is,
    lemma_first_index_none, rows_of, Board, BoardId, InvalidBoard,
};
use crate::contiguous_tiles::{
    has_repeats, is_connected, ContiguousPositions, CreateContiguousTilesError,
};
use crate::position::Position;

verus! {

/// A tile coordinate as the puzzle source writes it: row, then column.
#[derive(Clone, Copy, PartialEq, Eq, Structural, Debug)]
pub struct PositionDto(pub usize, pub usize);

/// One day's puzzle as the puzzle source describes it. Each theme entry is
/// a word with its path; the entry whose word is `spangram` is the spangram.
#[derive(Clone, Debug)]
pub struct NYTBoardDto {
    pub id: u32,
    pub editor: String,
    pub print_date: chrono::NaiveDate,
    pub spangram: String,
    pub clue: String,
    pub starting_board: Vec<String>,
    pub solutions: Vec<String>,
    pub theme_coords: Vec<(String, Vec<PositionDto>)>,
}

/// The coordinate names a position that `Position` can hold.
pub open spec fn dto_in_range(p: PositionDto) -> bool {
    p.0 <= i32::MAX && p.1 <= i32::MAX
}

pub open spec fn dto_position(p: PositionDto) -> Position {
    Position { row: p.0 as i32, col: p.1 as i32 }
}

/// The path that a theme entry's coordinates trace.
pub open spec fn coords_path(coords: Seq<PositionDto>) -> Seq<Position> {
    coords.map_values(|p: PositionDto| dto_position(p))
}

/// Why a theme entry's coordinates are no path, if they are not. A
/// coordinate beyond the range of `Position` lies outside every grid.
pub open spec fn coords_error(coords: Seq<PositionDto>) -> Option<InvalidBoard> {
    if exists|k: int| 0 <= k < coords.len() && !dto_in_range(#[trigger] coords[k]) {
        Some(InvalidBoard::AnswersDontCoverAllTiles)
    } else if has_repeats(coords_path(coords)) {
        Some(InvalidBoard::InvalidAnswerPath(CreateContiguousTilesError::HasDuplicates))
    } else if !is_connected(coords_path(coords)) {
        Some(InvalidBoard::InvalidAnswerPath(CreateContiguousTilesError::Disconnected))
    } else {
        None
    }
}

/// Holds of the indices of theme entries whose coordinates are no path.
pub open spec fn entry_is_invalid(entries: Seq<(String, Vec<PositionDto>)>) -> spec_fn(int) -> bool {
    |i: int| coords_error(entries[i].1@) is Some
}

/// The first theme entry whose coordinates are no path.
pub open spec fn first_invalid_entry(nyt: NYTBoardDto) -> Option<int> {
    first_index(nyt.theme_coords@.len() as int, entry_is_invalid(nyt.theme_coords@))
}

/// The answer that theme entry `i` describes: its id and order are `i`.
pub open spec fn theme_answer(nyt: NYTBoardDto, i: int) -> AnswerView {
    let entry = nyt.theme_coords@[i];
    AnswerView {
        id: AnswerId(i as u32),
        answer_type: if entry.0@ == nyt.spangram@ {
            AnswerType::Spangram
        } else {
            AnswerType::Normal
        },
        positions: coords_path(entry.1@),
        word: entry.0@,
        order: i as u32,
    }
}

/// The answers that the theme entries describe, in their order.
pub open spec fn theme_answers(nyt: NYTBoardDto) -> Seq<AnswerView> {
    Seq::new(nyt.theme_coords@.len(), |i: int| theme_answer(nyt, i))
}

/// Converts an entry's coordinates, or `None` when one is beyond the range of `Position`.
fn convert_coords(coords: &Vec<PositionDto>) -> (r: Option<Vec<Position>>)
    ensures
        r is None <==> exists|k: int| 0 <= k < coords@.len() && !dto_in_range(#[trigger] coords@[k]),
        r matches Some(v) ==> v@ == coords_path(coords@),
{
    let mut v: Vec<Position> = Vec::new();
    let mut k: usize = 0;
    while k < coords.len()
        invariant
            k <= coords@.len(),
            forall|m: int| 0 <= m < k ==> dto_in_range(#[trigger] coords@[m]),
            v@ == coords_path(coords@).take(k as int),
        decreases coords@.len() - k,
    {
        let p = coords[k];
        if p.0 > i32::MAX as usize || p.1 > i32::MAX as usize {
            assert(!dto_in_range(coords@[k as int]));
            return None;
        }
        v.push(Position::from_usize(p.0, p.1));
        assert(v@ =~= coords_path(coords@).take(k + 1));
        k = k + 1;
    }
    assert(coords_path(coords@).take(k as int) =~= coords_path(coords@));
    Some(v)
}

impl Board {
    /// Builds the board that puzzle data describe. Each theme entry becomes
    /// an answer, in order, with its index as id and order; the entry whose
    /// word is the spangram becomes the spangram. The first entry whose
    /// coordinates are no path is reported; otherwise the grid and answers
    /// are checked as `from_string` checks them.
    pub fn from_nyt(nyt: NYTBoardDto) -> (r: Result<Board, InvalidBoard>)
        requires
            nyt.theme_coords@.len() <= u32::MAX + 1,
        ensures
            first_invalid_entry(nyt) matches Some(j) ==> r == Err::<Board, _>(
                coords_error(nyt.theme_coords@[j].1@)->0,
            ),
            first_invalid_entry(nyt) is None ==> (r == Err::<Board, _>(
                InvalidBoard::InconsistentDimensions,
            ) <==> !is_rectangular(rows_of(nyt.starting_board@))),
            first_invalid_entry(nyt) is None ==> (r == Err::<Board, _>(
                InvalidBoard::AnswersDontCoverAllTiles,
            ) <==> is_rectangular(rows_of(nyt.starting_board@)) && !covers_grid(
                theme_answers(nyt),
                rows_of(nyt.starting_board@),
            )),
            first_invalid_entry(nyt) is None ==> (r == Err::<Board, _>(
                InvalidBoard::MissingOrDuplicateSpangram,
            ) <==> is_rectangular(rows_of(nyt.starting_board@)) && covers_grid(
                theme_answers(nyt),
                rows_of(nyt.starting_board@),
            ) && !has_one_spangram(theme_answers(nyt))),
            r is Ok <==> first_invalid_entry(nyt) is None && is_rectangular(
                rows_of(nyt.starting_board@),
            ) && covers_grid(theme_answers(nyt), rows_of(nyt.starting_board@)) && has_one_spangram(
                theme_answers(nyt),
            ),
            r matches Ok(b) ==> {
                &&& b.id == BoardId(nyt.id)
                &&& b.editor == nyt.editor
                &&& b.clue == nyt.clue
                &&& b.print_date == nyt.print_date
                &&& answer_views(b.answers@) == theme_answers(nyt)
                &&& b.tiles@ == rows_of(nyt.starting_board@)
                &&& b.wf()
            },
    {
        let ghost entries = nyt.theme_coords@;
        let ghost expected = theme_answers(nyt);
        let mut answers: Vec<Answer> = Vec::new();
        let mut i: usize = 0;
        while i < nyt.theme_coords.len()
            invariant
                entries == nyt.theme_coords@,
                expected == theme_answers(nyt),
                entries.len() <= u32::MAX + 1,
                i <= entries.len(),
                forall|j: int| 0 <= j < i ==> !#[trigger] entry_is_invalid(entries)(j),
                answer_views(answers@) == expected.take(i as int),
            decreases entries.len() - i,
        {
            let entry = &nyt.theme_coords[i];
            let word: &String = &entry.0;
            let positions = match convert_coords(&entry.1) {
                Some(positions) => positions,
                None => {
                    proof {
                        lemma_first_index_is(entries.len() as int, entry_is_invalid(entries), i as int);
                    }
                    return Err(InvalidBoard::AnswersDontCoverAllTiles);
                },
            };
            let path = match ContiguousPositions::new(positions) {
                Ok(path) => path,
                Err(e) => {
                    proof {
                        lemma_first_index_is(entries.len() as int, entry_is_invalid(entries), i as int);
                    }
                    return Err(InvalidBoard::InvalidAnswerPath(e));
                },
            };
            let answer_type = if *word == nyt.spangram {
                AnswerType::Spangram
            } else {
                AnswerType::Normal
            };
            let answer = Answer {
                id: AnswerId(i as u32),
                answer_type,
                positions: path,
                word: word.clone(),
                order: i as u32,
            };
            assert(answer@ == expected[i as int]);
            let ghost before = answers@;
            answers.push(answer);
            proof {
                assert(answers@ == before.push(answer));
                assert(answer_views(answers@) =~= answer_views(before).push(answer@));
                assert(answer_views(answers@) =~= expected.take(i + 1));
            }
            i = i + 1;
        }
        proof {
            lemma_first_index_none(entries.len() as int, entry_is_invalid(entries));
            assert(expected.take(i as int) =~= expected);
        }
        Board::from_string(
            BoardId::new(nyt.id),
            nyt.editor,
            nyt.clue,
            nyt.print_date,
            answers,
            nyt.starting_board.as_slice(),
        )
    }
}

} // verus!
