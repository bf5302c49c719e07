use vstd::prelude::*;
use crate::answer::{answer_views, Answer, AnswerId, AnswerType};
use crate::board::{
    answer_tile, first_match, first_unfound, in_grid, is_answer_tile, lemma_first_match_found,
    lemma_first_match_is_match,
    word_along, Board, BoardId, FoundAnswer,
};
use crate::clue::Clue;
use crate::dictionary::Dictionary;
use crate::guess::Guess;
use crate::position::Position;

verus! {

/// Clue progress that one revealed clue costs.
pub const CLUE_COST: u32 = 3;

#[derive(Clone, PartialEq, Eq, PartialOrd, Ord, Hash, Debug)]
pub struct GameId(String);

#[derive(Clone, PartialEq, Eq, PartialOrd, Ord, Hash, Debug)]
pub struct PlayerId(String);

impl View for PlayerId {
    type V = Seq<char>;

    closed spec fn view(&self) -> Seq<char> {
        self.0@
    }
}

impl PlayerId {
    pub fn new(str: &str) -> (r: Self)
        ensures
            r@ == str@,
    {
        PlayerId(str.to_owned())
    }
}

/// One player's session on one board.
#[derive(Clone, PartialEq, Eq, PartialOrd, Ord, Hash, Debug)]
pub struct Game {
    pub board_id: BoardId,
    pub player_id: PlayerId,
    pub active_clue: Option<Clue>,
    pub clue_progress_counter: u32,
    pub found_answer_ids: Vec<AnswerId>,
    pub guesses: Vec<Guess>,
    pub actions: Vec<GameAction>,
}

#[derive(Clone, Copy, PartialEq, Eq, Structural, PartialOrd, Ord, Hash, Debug)]
pub enum RedeemClueFailure {
    NotEnoughClueProgress,
    CouldNotFindClue,
}

#[derive(Clone, PartialEq, Eq, PartialOrd, Ord, Hash, Debug)]
pub enum GuessSuccess {
    FoundAnswer(Answer),
    GainedClue(u32),
}

#[derive(Clone, Copy, PartialEq, Eq, Structural, PartialOrd, Ord, Hash, Debug)]
pub enum GuessFailure {
    AlreadyGuessed,
    OutOfBounds,
    NotRealWord,
}

#[derive(Clone, Copy, PartialEq, Eq, Structural, PartialOrd, Ord, Hash, Debug)]
pub enum GameAction {
    Clue,
    NormalAnswerFound,
    SpanogramFound,
}

#[derive(Clone, PartialEq, Eq, PartialOrd, Ord, Hash, Debug)]
pub struct GameHistory(Vec<GameAction>);

#[derive(Clone, PartialEq, Eq, PartialOrd, Ord, Hash, Debug)]
pub enum GameState {
    NotStarted,
    InProgress(Game),
    Finished(Vec<GameAction>),
}

/// The value of a `Game`, with paths as sequences of positions.
pub struct GameView {
    pub board_id: BoardId,
    pub player_id: Seq<char>,
    pub active_clue: Option<Seq<Position>>,
    pub clue_progress_counter: u32,
    pub found_answer_ids: Seq<AnswerId>,
    pub guesses: Seq<Seq<Position>>,
    pub actions: Seq<GameAction>,
}

impl View for Game {
    type V = GameView;

    open spec fn view(&self) -> GameView {
        GameView {
            board_id: self.board_id,
            player_id: self.player_id@,
            active_clue: match self.active_clue {
                Some(c) => Some(c@),
                None => None,
            },
            clue_progress_counter: self.clue_progress_counter,
            found_answer_ids: self.found_answer_ids@,
            guesses: self.guesses@.map_values(|g: Guess| g@),
            actions: self.actions@,
        }
    }
}

/// The action logged when an answer of type `t` is found.
pub open spec fn action_for(t: AnswerType) -> GameAction {
    match t {
        AnswerType::Normal => GameAction::NormalAnswerFound,
        AnswerType::Spangram => GameAction::SpanogramFound,
    }
}

/// The dictionary's verdict on the guess's word decides the outcome: the
/// path is new, stays in the grid, and is no answer.
pub open spec fn dictionary_decides(g: GameView, board: Board, path: Seq<Position>) -> bool {
    &&& !g.guesses.contains(path)
    &&& word_along(board.tiles@, path) is Some
    &&& first_match(board.answers@, path) is None
}

/// The game after `path` is guessed on `board`, where `real_word` is the
/// dictionary's verdict on its word. A repeated path changes nothing; any
/// other path is recorded, also when it leaves the grid or is no real word.
pub open spec fn after_guess(g: GameView, board: Board, path: Seq<Position>, real_word: bool) -> GameView {
    if g.guesses.contains(path) {
        g
    } else {
        let recorded = GameView { guesses: g.guesses.push(path), ..g };
        if word_along(board.tiles@, path) is None {
            recorded
        } else {
            match first_match(board.answers@, path) {
                Some(i) => GameView {
                    found_answer_ids: g.found_answer_ids.push(board.answers@[i].id),
                    actions: g.actions.push(action_for(board.answers@[i].answer_type)),
                    ..recorded
                },
                None => if real_word {
                    GameView {
                        clue_progress_counter: (g.clue_progress_counter + 1) as u32,
                        ..recorded
                    }
                } else {
                    recorded
                },
            }
        }
    }
}

/// `r` is what guessing `path` on `board` returns, where `real_word` is the
/// dictionary's verdict on its word.
pub open spec fn is_guess_outcome(
    r: Result<GuessSuccess, GuessFailure>,
    g: GameView,
    board: Board,
    path: Seq<Position>,
    real_word: bool,
) -> bool {
    if g.guesses.contains(path) {
        r == Err::<GuessSuccess, _>(GuessFailure::AlreadyGuessed)
    } else if word_along(board.tiles@, path) is None {
        r == Err::<GuessSuccess, _>(GuessFailure::OutOfBounds)
    } else {
        match first_match(board.answers@, path) {
            Some(i) => r matches Ok(GuessSuccess::FoundAnswer(a)) && a@ == board.answers@[i]@,
            None => if real_word {
                r == Ok::<_, GuessFailure>(
                    GuessSuccess::GainedClue((g.clue_progress_counter + 1) as u32),
                )
            } else {
                r == Err::<GuessSuccess, _>(GuessFailure::NotRealWord)
            },
        }
    }
}

/// The game after a clue is redeemed on `board`.
pub open spec fn after_redeem(g: GameView, board: Board) -> GameView {
    if g.clue_progress_counter < CLUE_COST {
        g
    } else {
        match first_unfound(board.answers@, g.found_answer_ids) {
            Some(i) => GameView {
                actions: g.actions.push(GameAction::Clue),
                clue_progress_counter: (g.clue_progress_counter - CLUE_COST) as u32,
                active_clue: Some(board.answers@[i].positions@),
                ..g
            },
            None => g,
        }
    }
}

/// What redeeming a clue on `board` returns.
pub open spec fn redeem_outcome(g: GameView, board: Board) -> Result<(), RedeemClueFailure> {
    if g.clue_progress_counter < CLUE_COST {
        Err(RedeemClueFailure::NotEnoughClueProgress)
    } else if first_unfound(board.answers@, g.found_answer_ids) is None {
        Err(RedeemClueFailure::CouldNotFindClue)
    } else {
        Ok(())
    }
}

impl Game {
    pub fn new(board_id: BoardId, player_id: PlayerId) -> (r: Self)
        ensures
            r@ == (GameView {
                board_id,
                player_id: player_id@,
                active_clue: None,
                clue_progress_counter: 0,
                found_answer_ids: Seq::empty(),
                guesses: Seq::empty(),
                actions: Seq::empty(),
            }),
    {
        let r = Game {
            board_id,
            player_id,
            active_clue: None,
            clue_progress_counter: 0,
            found_answer_ids: vec![],
            guesses: vec![],
            actions: vec![],
        };
        assert(r@.guesses =~= Seq::empty());
        r
    }

    /// Whether this path was guessed before.
    fn has_guessed(&self, guess: &Guess) -> (r: bool)
        ensures
            r == self@.guesses.contains(guess@),
    {
        let mut i: usize = 0;
        while i < self.guesses.len()
            invariant
                i <= self.guesses@.len(),
                forall|j: int| 0 <= j < i ==> self@.guesses[j] != guess@,
            decreases self.guesses@.len() - i,
        {
            if self.guesses[i].positions == guess.positions {
                assert(self@.guesses[i as int] == guess@);
                return true;
            }
            i = i + 1;
        }
        false
    }

    /// The guess's word, when the dictionary's verdict on it decides the outcome.
    fn word_for_dictionary(&self, guess: &Guess, board: &Board) -> (r: Option<String>)
        ensures
            r is Some <==> dictionary_decides(self@, *board, guess@),
            r matches Some(w) ==> w@ == word_along(board.tiles@, guess@)->0,
    {
        if self.has_guessed(guess) {
            return None;
        }
        let word = board.get_word(&guess.positions);
        if word.is_none() {
            return None;
        }
        match board.guess_is_answer(guess) {
            FoundAnswer::NotAnswer => word,
            FoundAnswer::Found(_) => None,
        }
    }

    /// Submits a guess, asking `dictionary` about its word only when the
    /// verdict decides the outcome. A path guessed before is rejected and
    /// nothing is recorded. Otherwise the guess is recorded, whatever the
    /// outcome: a path that leaves the grid is `OutOfBounds`; one that is an
    /// answer's path is found, whatever the dictionary says; any other path
    /// gains one clue progress if its word is real.
    pub fn make_guess(&mut self, guess: Guess, board: &Board, dictionary: &impl Dictionary) -> (r:
        Result<GuessSuccess, GuessFailure>)
        requires
            old(self).clue_progress_counter < u32::MAX,
        ensures
            exists|real_word: bool|
                final(self)@ == after_guess(old(self)@, *board, guess@, real_word)
                    && is_guess_outcome(r, old(self)@, *board, guess@, real_word),
            !dictionary_decides(old(self)@, *board, guess@) ==> {
                &&& final(self)@ == after_guess(old(self)@, *board, guess@, false)
                &&& is_guess_outcome(r, old(self)@, *board, guess@, false)
            },
    {
        let real_word = match self.word_for_dictionary(&guess, board) {
            Some(word) => dictionary.contains_word(word.as_str()),
            None => false,
        };
        self.record_guess(guess, board, real_word)
    }

    /// Submits a guess whose word the dictionary has judged: `real_word`
    /// is its verdict, and counts only when the path is new, stays in the
    /// grid and is no answer.
    pub fn record_guess(&mut self, guess: Guess, board: &Board, real_word: bool) -> (r: Result<
        GuessSuccess,
        GuessFailure,
    >)
        requires
            old(self).clue_progress_counter < u32::MAX,
        ensures
            final(self)@ == after_guess(old(self)@, *board, guess@, real_word),
            is_guess_outcome(r, old(self)@, *board, guess@, real_word),
    {
        if self.has_guessed(&guess) {
            return Err(GuessFailure::AlreadyGuessed);
        }
        let ghost g = self@;
        let response = match board.get_word(&guess.positions) {
            None => Err(GuessFailure::OutOfBounds),
            Some(_) => match board.guess_is_answer(&guess) {
                FoundAnswer::NotAnswer => {
                    if real_word {
                        self.clue_progress_counter = self.clue_progress_counter + 1;
                        Ok(GuessSuccess::GainedClue(self.clue_progress_counter))
                    } else {
                        Err(GuessFailure::NotRealWord)
                    }
                },
                FoundAnswer::Found(answer) => {
                    let found = answer.clone();
                    self.found_answer(answer);
                    Ok(GuessSuccess::FoundAnswer(found))
                },
            },
        };
        self.guesses.push(guess);
        proof {
            let expected = after_guess(g, *board, guess@, real_word);
            assert(self@.guesses =~= expected.guesses);
            assert(self@.found_answer_ids =~= expected.found_answer_ids);
            assert(self@.actions =~= expected.actions);
        }
        response
    }

    fn found_answer(&mut self, found_answer: Answer)
        ensures
            final(self)@ == (GameView {
                found_answer_ids: old(self)@.found_answer_ids.push(found_answer.id),
                actions: old(self)@.actions.push(action_for(found_answer.answer_type)),
                ..old(self)@
            }),
    {
        match found_answer.answer_type {
            AnswerType::Normal => self.actions.push(GameAction::NormalAnswerFound),
            AnswerType::Spangram => self.actions.push(GameAction::SpanogramFound),
        }
        self.found_answer_ids.push(found_answer.id);
    }

    /// Spends three clue progress to reveal the path of the first
    /// registered answer not yet found.
    pub fn redeem_clue(&mut self, board: &Board) -> (r: Result<(), RedeemClueFailure>)
        ensures
            final(self)@ == after_redeem(old(self)@, *board),
            r == redeem_outcome(old(self)@, *board),
    {
        if self.clue_progress_counter < CLUE_COST {
            return Err(RedeemClueFailure::NotEnoughClueProgress);
        }
        let clue = match board.get_next_clue(self.found_answer_ids.as_slice()) {
            Some(clue) => clue,
            None => {
                return Err(RedeemClueFailure::CouldNotFindClue);
            },
        };
        self.actions.push(GameAction::Clue);
        self.clue_progress_counter = self.clue_progress_counter - CLUE_COST;
        self.active_clue = Some(clue);
        Ok(())
    }
}

/// Guessing the same path twice: the second guess is rejected as already
/// guessed and changes nothing, whatever the first guess gave and whatever
/// the dictionary says.
pub proof fn lemma_repeated_guess_is_rejected(
    g: GameView,
    board: Board,
    path: Seq<Position>,
    first_verdict: bool,
    second_verdict: bool,
    r: Result<GuessSuccess, GuessFailure>,
)
    ensures
        ({
            let once = after_guess(g, board, path, first_verdict);
            &&& after_guess(once, board, path, second_verdict) == once
            &&& is_guess_outcome(r, once, board, path, second_verdict) <==> r == Err::<
                GuessSuccess,
                _,
            >(GuessFailure::AlreadyGuessed)
        }),
{
    let once = after_guess(g, board, path, first_verdict);
    if !g.guesses.contains(path) {
        assert(once.guesses[once.guesses.len() - 1] == path);
    }
    assert(once.guesses.contains(path));
}

/// On a valid board, guessing exactly the path of a registered answer finds
/// an answer with that path (the first such one registered), and the
/// dictionary's verdict plays no part; only a path guessed before is
/// rejected instead.
pub proof fn lemma_answer_path_is_found(
    g: GameView,
    board: Board,
    i: int,
    real_word: bool,
    r: Result<GuessSuccess, GuessFailure>,
)
    requires
        board.wf(),
        0 <= i < board.answers@.len(),
        !g.guesses.contains(board.answers@[i].positions@),
        is_guess_outcome(r, g, board, board.answers@[i].positions@, real_word),
    ensures
        r matches Ok(GuessSuccess::FoundAnswer(a)) && a@.positions == board.answers@[i].positions@,
        after_guess(g, board, board.answers@[i].positions@, real_word) == after_guess(
            g,
            board,
            board.answers@[i].positions@,
            !real_word,
        ),
{
    let answers = board.answers@;
    let path = answers[i].positions@;
    assert forall|k: int| 0 <= k < path.len() implies in_grid(board.tiles@, #[trigger] path[k]) by {
        assert(is_answer_tile(answer_views(answers), i, k));
        assert(in_grid(board.tiles@, answer_tile(answer_views(answers), i, k)));
    }
    assert(word_along(board.tiles@, path) is Some);
    lemma_first_match_found(answers, path, i);
}

/// Clue progress moves only by these steps: a guess gains exactly one when
/// it returns `GainedClue` and leaves it unchanged otherwise; a redeemed
/// clue spends exactly three; redeeming is refused below three.
pub proof fn lemma_clue_progress_accounting(
    g: GameView,
    board: Board,
    path: Seq<Position>,
    real_word: bool,
    r: Result<GuessSuccess, GuessFailure>,
)
    requires
        g.clue_progress_counter < u32::MAX,
        is_guess_outcome(r, g, board, path, real_word),
    ensures
        after_guess(g, board, path, real_word).clue_progress_counter == if r matches Ok(
            GuessSuccess::GainedClue(_),
        ) {
            g.clue_progress_counter + 1
        } else {
            g.clue_progress_counter as int
        },
        after_redeem(g, board).clue_progress_counter == if redeem_outcome(g, board) is Ok {
            g.clue_progress_counter - CLUE_COST
        } else {
            g.clue_progress_counter as int
        },
        g.clue_progress_counter < CLUE_COST ==> redeem_outcome(g, board) == Err::<(), _>(
            RedeemClueFailure::NotEnoughClueProgress,
        ),
{
}

/// Found id `k` of `g` is the id of answer `i`, whose path has been guessed.
pub open spec fn found_as(g: GameView, answers: Seq<Answer>, k: int, i: int) -> bool {
    &&& 0 <= i < answers.len()
    &&& answers[i].id == g.found_answer_ids[k]
    &&& g.guesses.contains(answers[i].positions@)
}

/// Found id `k` of `g` is the id of some registered answer whose path has been guessed.
pub open spec fn found_id_known(g: GameView, answers: Seq<Answer>, k: int) -> bool {
    exists|i: int| #[trigger] found_as(g, answers, k, i)
}

/// Every found id is the id of a registered answer whose path has been guessed.
pub open spec fn found_ids_known(g: GameView, answers: Seq<Answer>) -> bool {
    forall|k: int| 0 <= k < g.found_answer_ids.len() ==> #[trigger] found_id_known(g, answers, k)
}

/// No two registered answers share an id.
pub open spec fn ids_unique(answers: Seq<Answer>) -> bool {
    forall|i: int, j: int|
        #![trigger answers[i], answers[j]]
        0 <= i < j < answers.len() ==> answers[i].id != answers[j].id
}

/// Found ids are never unknown: each belongs to a registered answer whose
/// path was guessed, and guesses and redeemed clues keep it so. When the
/// board's ids are distinct, found ids never repeat either.
pub proof fn lemma_found_ids_stay_valid(
    g: GameView,
    board: Board,
    path: Seq<Position>,
    real_word: bool,
)
    requires
        found_ids_known(g, board.answers@),
    ensures
        found_ids_known(after_guess(g, board, path, real_word), board.answers@),
        found_ids_known(after_redeem(g, board), board.answers@),
        ids_unique(board.answers@) && g.found_answer_ids.no_duplicates() ==> {
            &&& after_guess(g, board, path, real_word).found_answer_ids.no_duplicates()
            &&& after_redeem(g, board).found_answer_ids.no_duplicates()
        },
{
    let answers = board.answers@;
    let redeemed = after_redeem(g, board);
    assert forall|k: int|
        0 <= k < redeemed.found_answer_ids.len() implies #[trigger] found_id_known(
            redeemed,
            answers,
            k,
        ) by {
        assert(found_id_known(g, answers, k));
        let i = choose|i: int| #[trigger] found_as(g, answers, k, i);
        assert(found_as(redeemed, answers, k, i));
    }
    let next = after_guess(g, board, path, real_word);
    if !g.guesses.contains(path) {
        assert(next.guesses == g.guesses.push(path));
        assert(next.guesses[g.guesses.len() as int] == path);
        let grows = word_along(board.tiles@, path) is Some && first_match(answers, path) is Some;
        if grows {
            lemma_first_match_is_match(answers, path);
        }
        let m = first_match(answers, path)->0;
        assert(grows ==> next.found_answer_ids == g.found_answer_ids.push(answers[m].id));
        assert(!grows ==> next.found_answer_ids == g.found_answer_ids);
        assert forall|k: int|
            0 <= k < next.found_answer_ids.len() implies #[trigger] found_id_known(
                next,
                answers,
                k,
            ) by {
            if k < g.found_answer_ids.len() {
                assert(found_id_known(g, answers, k));
                assert(g.found_answer_ids[k] == next.found_answer_ids[k]);
                let i = choose|i: int| #[trigger] found_as(g, answers, k, i);
                let j = choose|j: int| 0 <= j < g.guesses.len() && g.guesses[j] == answers[i].positions@;
                assert(next.guesses[j] == answers[i].positions@);
                assert(found_as(next, answers, k, i));
            } else {
                assert(found_as(next, answers, k, m));
            }
        }
        assert(found_ids_known(next, answers));
        if ids_unique(answers) && g.found_answer_ids.no_duplicates() && grows {
            assert forall|k: int| 0 <= k < g.found_answer_ids.len() implies g.found_answer_ids[k]
                != answers[m].id by {
                assert(found_id_known(g, answers, k));
                let i = choose|i: int| #[trigger] found_as(g, answers, k, i);
                if i < m {
                    assert(answers[i].id != answers[m].id);
                } else if m < i {
                    assert(answers[m].id != answers[i].id);
                }
            }
        }
    } else {
        assert(next == g);
    }
}

} // verus!
