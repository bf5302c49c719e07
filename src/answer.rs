use vstd::prelude::*;
use crate::contiguous_tiles::ContiguousPositions;
use crate::guess::Guess;
use crate::position::Position;

verus! {

#[derive(Copy, Clone, PartialEq, Eq, Structural, PartialOrd, Ord, Hash, Debug)]
pub struct AnswerId(pub u32);

impl AnswerId {
    pub fn new(id: u32) -> (r: Self)
        ensures
            r.0 == id,
    {
        AnswerId(id)
    }
}

#[derive(Copy, Clone, PartialEq, Eq, Structural, PartialOrd, Ord, Hash, Debug)]
pub enum AnswerType {
    Normal,
    Spangram,
}

/// A theme word hidden in the grid along a path.
#[derive(PartialEq, Eq, PartialOrd, Ord, Hash, Debug)]
pub struct Answer {
    pub id: AnswerId,
    pub answer_type: AnswerType,
    pub positions: ContiguousPositions,
    pub word: String,
    pub order: u32,
}

/// The value of an `Answer`, with its path and word as sequences.
pub struct AnswerView {
    pub id: AnswerId,
    pub answer_type: AnswerType,
    pub positions: Seq<Position>,
    pub word: Seq<char>,
    pub order: u32,
}

impl View for Answer {
    type V = AnswerView;

    open spec fn view(&self) -> AnswerView {
        AnswerView {
            id: self.id,
            answer_type: self.answer_type,
            positions: self.positions@,
            word: self.word@,
            order: self.order,
        }
    }
}

/// The values of a sequence of answers.
pub open spec fn answer_views(answers: Seq<Answer>) -> Seq<AnswerView> {
    answers.map_values(|a: Answer| a@)
}

impl Answer {
    /// An answer whose word is the fixed text "Hello"; answers built from
    /// puzzle data carry their own word.
    pub fn new(id: AnswerId, answer_type: AnswerType, positions: ContiguousPositions, order: u32) -> (r: Self)
        ensures
            r.id == id,
            r.answer_type == answer_type,
            r.positions@ == positions@,
            r.word@ == "Hello"@,
            r.order == order,
    {
        Answer { id, answer_type, positions, word: "Hello".to_owned(), order }
    }

    /// The guess traces exactly this answer's path, in the same order.
    pub fn matches_guess(&self, guess: &Guess) -> (r: bool)
        ensures
            r == (self.positions@ == guess@),
    {
        self.positions == guess.positions
    }
}

impl Clone for Answer {
    fn clone(&self) -> (r: Self)
        ensures
            r@ == self@,
    {
        Answer {
            id: self.id,
            answer_type: self.answer_type,
            positions: self.positions.clone(),
            word: self.word.clone(),
            order: self.order,
        }
    }
}

} // verus!
