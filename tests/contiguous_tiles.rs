use strands::{ContiguousPositions, CreateContiguousTilesError, Guess, CreateGuessError, Position};

fn path(cells: &[(i32, i32)]) -> Vec<Position> {
    cells.iter().map(|&(r, c)| Position::new(r, c)).collect()
}

#[test]
fn errors_for_duplicates() -> () {
    let duplicate_positions =
        ContiguousPositions::new(vec![Position::new(0, 0), Position::new(0, 0)]);

    assert_eq!(
        duplicate_positions,
        Err(CreateContiguousTilesError::HasDuplicates)
    )
}

#[test]
fn errors_for_disconnected() -> () {
    let disconnected_positions =
        ContiguousPositions::new(vec![Position::new(0, 0), Position::new(0, 2)]);

    assert_eq!(
        disconnected_positions,
        Err(CreateContiguousTilesError::Disconnected)
    )
}

#[test]
fn accepts_diagonal_steps() {
    let p = ContiguousPositions::new(path(&[(0, 0), (1, 1), (2, 0), (1, -1)])).unwrap();
    assert_eq!(p.len(), 4);
    assert_eq!(p.inner_value(), path(&[(0, 0), (1, 1), (2, 0), (1, -1)]));
}

#[test]
fn accepts_empty_and_single_paths() {
    assert_eq!(ContiguousPositions::new(vec![]).unwrap().len(), 0);
    assert_eq!(ContiguousPositions::new(path(&[(3, 4)])).unwrap().len(), 1);
}

#[test]
fn checks_every_consecutive_pair() {
    // The gap lies between the second and third positions.
    let r = ContiguousPositions::new(path(&[(0, 0), (0, 1), (5, 5), (5, 6)]));
    assert_eq!(r, Err(CreateContiguousTilesError::Disconnected));
}

#[test]
fn reports_duplicates_before_disconnection() {
    let r = ContiguousPositions::new(path(&[(0, 0), (0, 2), (0, 0)]));
    assert_eq!(r, Err(CreateContiguousTilesError::HasDuplicates));
}

#[test]
fn duplicates_need_not_be_consecutive() {
    let r = ContiguousPositions::new(path(&[(0, 0), (0, 1), (1, 1), (1, 0), (0, 0)]));
    assert_eq!(r, Err(CreateContiguousTilesError::HasDuplicates));
}

#[test]
fn path_equality_follows_order() {
    let forward = ContiguousPositions::new(path(&[(0, 0), (0, 1), (0, 2)])).unwrap();
    let backward = ContiguousPositions::new(path(&[(0, 2), (0, 1), (0, 0)])).unwrap();
    assert_ne!(forward, backward);
    assert_eq!(forward, forward.clone());
}

#[test]
fn iterates_in_order() {
    let p = ContiguousPositions::new(path(&[(2, 2), (2, 3), (3, 3)])).unwrap();
    let seen: Vec<Position> = p.iter().copied().collect();
    assert_eq!(seen, path(&[(2, 2), (2, 3), (3, 3)]));
}

#[test]
fn guesses_need_four_positions() {
    let three = ContiguousPositions::new(path(&[(0, 0), (0, 1), (0, 2)])).unwrap();
    assert_eq!(Guess::new(three), Err(CreateGuessError::TooShort));
    let none = ContiguousPositions::new(vec![]).unwrap();
    assert_eq!(Guess::new(none), Err(CreateGuessError::TooShort));
    let four = ContiguousPositions::new(path(&[(0, 0), (0, 1), (0, 2), (0, 3)])).unwrap();
    let guess = Guess::new(four.clone()).unwrap();
    assert_eq!(guess.positions, four);
}
