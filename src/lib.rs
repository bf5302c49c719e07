pub mod adapter;
pub mod answer;
pub mod board;
pub mod clue;
pub mod contiguous_tiles;
pub mod dictionary;
pub mod game;
pub mod guess;
pub mod position;

pub use adapter::{NYTBoardDto, PositionDto};
pub use answer::{Answer, AnswerId, AnswerType};
pub use board::{Board, BoardId, Dimensions, FoundAnswer, InvalidBoard, Tiles};
pub use clue::Clue;
pub use contiguous_tiles::{ContiguousPositions, CreateContiguousTilesError};
pub use dictionary::{Dictionary, HashSetDictionary};
pub use game::{
    Game, GameAction, GameHistory, GameId, GameState, GuessFailure, GuessSuccess, PlayerId,
    RedeemClueFailure,
};
pub use guess::{CreateGuessError, Guess};
pub use position::{Position, Tile};
