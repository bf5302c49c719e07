use chrono::NaiveDate;
use std::collections::HashSet;
use strands::{
    Answer, AnswerId, AnswerType, Board, BoardId, Clue, ContiguousPositions, Dictionary, Game,
    GameAction, Guess, GuessFailure, GuessSuccess, HashSetDictionary, PlayerId, Position,
    RedeemClueFailure,
};

pub struct AlwaysContainsDictionary;
impl Dictionary for AlwaysContainsDictionary {
    fn contains_word(&self, _word: &str) -> bool {
        true
    }
}

pub struct NeverContainsDictionary;
impl Dictionary for NeverContainsDictionary {
    fn contains_word(&self, _word: &str) -> bool {
        false
    }
}

fn path(cells: &[(i32, i32)]) -> ContiguousPositions {
    ContiguousPositions::new(cells.iter().map(|&(r, c)| Position::new(r, c)).collect()).unwrap()
}

fn guess(cells: &[(i32, i32)]) -> Guess {
    Guess::new(path(cells)).unwrap()
}

fn row_path(row: i32) -> ContiguousPositions {
    path(&[(row, 0), (row, 1), (row, 2), (row, 3), (row, 4)])
}

pub fn spanogram_answer() -> Answer {
    Answer::new(
        AnswerId::new(1),
        AnswerType::Spangram,
        ContiguousPositions::new(vec![
            Position::new(0, 0),
            Position::new(0, 1),
            Position::new(0, 2),
            Position::new(0, 3),
            Position::new(0, 4),
        ])
        .unwrap(),
        1,
    )
}

/// The theme word of row `row`, registered after the spangram.
fn row_answer(row: i32) -> Answer {
    Answer::new(AnswerId::new(row as u32 + 1), AnswerType::Normal, row_path(row), row as u32 + 1)
}

pub fn sample_game() -> Game {
    Game::new(BoardId::new(123), PlayerId::new("chrismcdonnell"))
}

/// The spangram on row 0; each other row is a theme word of its own, so
/// that the answers cover the grid.
pub fn sample_board() -> Board {
    let board_id = BoardId::new(123);
    let tiles = vec![
        "hello".to_string(),
        "world".to_string(),
        "thisi".to_string(),
        "fooba".to_string(),
        "rbazo".to_string(),
    ];
    let answers = vec![spanogram_answer(), row_answer(1), row_answer(2), row_answer(3), row_answer(4)];
    let clue = "Try This".to_string();
    let editor = "Chris".to_string();
    let print_date = NaiveDate::from_ymd_opt(2024, 4, 24).unwrap();

    Board::from_string(board_id, editor, clue, print_date, answers, &tiles).unwrap()
}

#[test]
fn using_sample_board() {
    let board = sample_board();
    let mut game = sample_game();
    let dictionary = AlwaysContainsDictionary;
    let guess = Guess::new(
        ContiguousPositions::new(vec![
            Position::new(0, 0),
            Position::new(0, 1),
            Position::new(0, 2),
            Position::new(0, 3),
            Position::new(0, 4),
        ])
        .unwrap(),
    )
    .unwrap();

    let answer = game.make_guess(guess, &board, &dictionary);

    assert_eq!(answer, Ok(GuessSuccess::FoundAnswer(spanogram_answer())))
}

#[test]
fn gives_credit_for_real_word() {
    let board = sample_board();
    let mut game = sample_game();
    let dictionary = AlwaysContainsDictionary;
    let guess = Guess::new(
        ContiguousPositions::new(vec![
            Position::new(0, 0),
            Position::new(0, 1),
            Position::new(0, 2),
            Position::new(0, 3),
        ])
        .unwrap(),
    )
    .unwrap();

    let answer = game.make_guess(guess, &board, &dictionary);

    assert_eq!(answer, Ok(GuessSuccess::GainedClue(1)))
}

#[test]
fn doesnt_give_credit_for_duplicate_guesses() {
    let board = sample_board();
    let mut game = sample_game();
    let dictionary = AlwaysContainsDictionary;
    let guess = Guess::new(
        ContiguousPositions::new(vec![
            Position::new(0, 0),
            Position::new(0, 1),
            Position::new(0, 2),
            Position::new(0, 3),
        ])
        .unwrap(),
    )
    .unwrap();

    let _first_guess = game.make_guess(guess.clone(), &board, &dictionary);
    let duplicate_guess_response = game.make_guess(guess, &board, &dictionary);

    assert_eq!(duplicate_guess_response, Err(GuessFailure::AlreadyGuessed))
}

#[test]
fn get_clue_after_3_words() {
    let board = sample_board();
    let mut game = sample_game();
    let guess_1 = Guess::new(
        ContiguousPositions::new(vec![
            Position::new(0, 0),
            Position::new(0, 1),
            Position::new(0, 2),
            Position::new(0, 3),
        ])
        .unwrap(),
    )
    .unwrap();
    let guess_2 = Guess::new(
        ContiguousPositions::new(vec![
            Position::new(0, 1),
            Position::new(0, 2),
            Position::new(0, 3),
            Position::new(1, 3),
        ])
        .unwrap(),
    )
    .unwrap();
    let guess_3 = Guess::new(
        ContiguousPositions::new(vec![
            Position::new(0, 1),
            Position::new(0, 2),
            Position::new(1, 3),
            Position::new(1, 4),
        ])
        .unwrap(),
    )
    .unwrap();
    let dictionary = AlwaysContainsDictionary;

    let _ = game.make_guess(guess_1, &board, &dictionary);
    let _ = game.make_guess(guess_2, &board, &dictionary);
    let _ = game.make_guess(guess_3, &board, &dictionary);

    let successfully_made_clue = game.redeem_clue(&board);

    assert_eq!(successfully_made_clue, Ok(()));
    assert_eq!(game.active_clue, Some(spanogram_answer().into()));
}

#[test]
fn cannot_redeem_clue_on_fresh_game() {
    let board = sample_board();
    let mut game = sample_game();

    let not_a_clue = game.redeem_clue(&board);

    assert_eq!(not_a_clue, Err(RedeemClueFailure::NotEnoughClueProgress))
}

#[test]
fn end_to_end_example() {
    let board = sample_board();
    let mut game = sample_game();
    let always = AlwaysContainsDictionary;

    let spangram = guess(&[(0, 0), (0, 1), (0, 2), (0, 3), (0, 4)]);
    assert_eq!(
        game.make_guess(spangram, &board, &always),
        Ok(GuessSuccess::FoundAnswer(spanogram_answer()))
    );
    let hell = guess(&[(0, 0), (0, 1), (0, 2), (0, 3)]);
    assert_eq!(game.make_guess(hell.clone(), &board, &always), Ok(GuessSuccess::GainedClue(1)));
    assert_eq!(game.make_guess(hell, &board, &always), Err(GuessFailure::AlreadyGuessed));
    assert_eq!(
        game.make_guess(guess(&[(1, 0), (1, 1), (1, 2), (1, 3)]), &board, &always),
        Ok(GuessSuccess::GainedClue(2))
    );
    assert_eq!(
        game.make_guess(guess(&[(2, 0), (2, 1), (2, 2), (2, 3)]), &board, &always),
        Ok(GuessSuccess::GainedClue(3))
    );
    assert_eq!(game.redeem_clue(&board), Ok(()));
    assert_eq!(game.clue_progress_counter, 0);
    // The spangram is found, so the clue is the next answer: row 1.
    let next: Clue = row_answer(1).into();
    assert_eq!(game.active_clue, Some(next));
    assert_eq!(
        game.actions,
        vec![GameAction::SpanogramFound, GameAction::Clue]
    );
    assert_eq!(game.found_answer_ids, vec![AnswerId::new(1)]);

    let mut fresh = sample_game();
    assert_eq!(fresh.redeem_clue(&board), Err(RedeemClueFailure::NotEnoughClueProgress));
}

#[test]
fn answers_are_found_whatever_the_dictionary_says() {
    let board = sample_board();
    let mut game = sample_game();
    let never = NeverContainsDictionary;
    assert_eq!(
        game.make_guess(Guess::new(row_path(3)).unwrap(), &board, &never),
        Ok(GuessSuccess::FoundAnswer(row_answer(3)))
    );
    assert_eq!(game.found_answer_ids, vec![AnswerId::new(4)]);
    assert_eq!(game.actions, vec![GameAction::NormalAnswerFound]);
    assert_eq!(game.clue_progress_counter, 0);
}

#[test]
fn unknown_words_gain_nothing_and_are_recorded() {
    let board = sample_board();
    let mut game = sample_game();
    let never = NeverContainsDictionary;
    let g = guess(&[(4, 0), (4, 1), (4, 2), (3, 2)]);
    assert_eq!(game.make_guess(g.clone(), &board, &never), Err(GuessFailure::NotRealWord));
    assert_eq!(game.clue_progress_counter, 0);
    assert_eq!(game.guesses, vec![g.clone()]);
    let always = AlwaysContainsDictionary;
    assert_eq!(game.make_guess(g, &board, &always), Err(GuessFailure::AlreadyGuessed));
    assert_eq!(game.clue_progress_counter, 0);
}

#[test]
fn out_of_bounds_guesses_are_recorded() {
    let board = sample_board();
    let mut game = sample_game();
    let always = AlwaysContainsDictionary;
    let g = guess(&[(4, 3), (4, 4), (4, 5), (4, 6)]);
    assert_eq!(game.make_guess(g.clone(), &board, &always), Err(GuessFailure::OutOfBounds));
    assert_eq!(game.guesses.len(), 1);
    assert_eq!(game.make_guess(g, &board, &always), Err(GuessFailure::AlreadyGuessed));
    assert_eq!(game.clue_progress_counter, 0);
}

#[test]
fn records_a_judged_guess() {
    let board = sample_board();
    let mut game = sample_game();
    let g = guess(&[(3, 0), (3, 1), (3, 2), (3, 3)]);
    assert_eq!(game.record_guess(g.clone(), &board, true), Ok(GuessSuccess::GainedClue(1)));
    let h = guess(&[(2, 0), (2, 1), (2, 2), (2, 3)]);
    assert_eq!(game.record_guess(h, &board, false), Err(GuessFailure::NotRealWord));
    assert_eq!(game.record_guess(g, &board, true), Err(GuessFailure::AlreadyGuessed));
    assert_eq!(game.clue_progress_counter, 1);
}

#[test]
fn redeeming_spends_three_and_keeps_the_rest() {
    let board = sample_board();
    let mut game = sample_game();
    let always = AlwaysContainsDictionary;
    for row in 0..4 {
        let g = guess(&[(row, 0), (row, 1), (row, 2), (row, 3)]);
        let _ = game.make_guess(g, &board, &always);
    }
    assert_eq!(game.clue_progress_counter, 4);
    assert_eq!(game.redeem_clue(&board), Ok(()));
    assert_eq!(game.clue_progress_counter, 1);
    assert_eq!(game.redeem_clue(&board), Err(RedeemClueFailure::NotEnoughClueProgress));
    assert_eq!(game.clue_progress_counter, 1);
}

#[test]
fn no_clue_once_every_answer_is_found() {
    let board = sample_board();
    let mut game = sample_game();
    let always = AlwaysContainsDictionary;
    for row in 0..5 {
        assert!(matches!(
            game.make_guess(Guess::new(row_path(row)).unwrap(), &board, &always),
            Ok(GuessSuccess::FoundAnswer(_))
        ));
    }
    for row in 0..3 {
        let g = guess(&[(row, 1), (row, 2), (row, 3), (row, 4)]);
        let _ = game.make_guess(g, &board, &always);
    }
    assert_eq!(game.clue_progress_counter, 3);
    assert_eq!(game.redeem_clue(&board), Err(RedeemClueFailure::CouldNotFindClue));
    assert_eq!(game.clue_progress_counter, 3);
    assert_eq!(game.active_clue, None);
}

#[test]
fn new_game_starts_empty() {
    let game = Game::new(BoardId::new(7), PlayerId::new("sam"));
    assert_eq!(game.board_id, BoardId::new(7));
    assert_eq!(game.player_id, PlayerId::new("sam"));
    assert_eq!(game.active_clue, None);
    assert_eq!(game.clue_progress_counter, 0);
    assert!(game.found_answer_ids.is_empty());
    assert!(game.guesses.is_empty());
    assert!(game.actions.is_empty());
}

#[test]
fn clue_tiles_as_a_set() {
    let clue: Clue = spanogram_answer().into();
    let expected: HashSet<Position> = (0..5).map(|c| Position::new(0, c)).collect();
    assert_eq!(clue.tiles_randomized(), expected);
}

#[test]
fn hash_set_dictionary_knows_its_words() {
    let words: HashSet<String> = ["hell".to_string(), "world".to_string()].into_iter().collect();
    let dictionary = HashSetDictionary(words);
    assert!(dictionary.contains_word("hell"));
    assert!(!dictionary.contains_word("hello"));
    let board = sample_board();
    let mut game = sample_game();
    assert_eq!(
        game.make_guess(guess(&[(0, 0), (0, 1), (0, 2), (0, 3)]), &board, &dictionary),
        Ok(GuessSuccess::GainedClue(1))
    );
    assert_eq!(
        game.make_guess(guess(&[(0, 1), (0, 2), (0, 3), (0, 4)]), &board, &dictionary),
        Err(GuessFailure::NotRealWord)
    );
}
