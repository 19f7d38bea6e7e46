use election::ballot::{check_ballot, check_ballot_shape, BallotValidityError};
use election::model::{AlternativeData, BallotRow};

fn row(alternative: usize, min: u64, max: u64) -> BallotRow {
    BallotRow { elector: None, alternative, min, max }
}

fn known(ids: &[i64]) -> Vec<AlternativeData> {
    ids.iter()
        .map(|&id| AlternativeData {
            id,
            name: format!("alt{}", id),
            description: String::new(),
            icon: String::new(),
        })
        .collect()
}

#[test]
fn sound_ballot_is_accepted() {
    let b = vec![row(1, 1, 1), row(2, 2, 3), row(3, 2, 3)];
    assert_eq!(check_ballot_shape(&b), Ok(()));
    assert_eq!(check_ballot(&b, &known(&[1, 2, 3])), Ok(()));
}

#[test]
fn empty_ballot_is_accepted() {
    assert_eq!(check_ballot_shape(&[]), Ok(()));
    assert_eq!(check_ballot(&[], &known(&[])), Ok(()));
}

#[test]
fn inverted_band_is_refused() {
    let b = vec![row(1, 3, 1)];
    assert_eq!(check_ballot_shape(&b), Err(BallotValidityError::InvalidRankRange(3, 1)));
}

#[test]
fn first_inverted_band_is_reported() {
    let b = vec![row(1, 1, 1), row(2, 5, 4), row(3, 9, 2)];
    assert_eq!(check_ballot_shape(&b), Err(BallotValidityError::InvalidRankRange(5, 4)));
}

#[test]
fn repeated_alternative_is_refused() {
    let b = vec![row(2, 1, 1), row(1, 2, 2), row(2, 3, 3)];
    assert_eq!(check_ballot_shape(&b), Err(BallotValidityError::DuplicateAlternative(2)));
}

#[test]
fn band_error_wins_over_repeat() {
    let b = vec![row(1, 1, 1), row(1, 2, 2), row(3, 4, 2)];
    assert_eq!(check_ballot_shape(&b), Err(BallotValidityError::InvalidRankRange(4, 2)));
}

#[test]
fn unknown_alternative_is_refused() {
    let b = vec![row(1, 1, 1), row(7, 2, 2), row(8, 3, 3)];
    assert_eq!(check_ballot_shape(&b), Ok(()));
    assert_eq!(
        check_ballot(&b, &known(&[1, 2, 3])),
        Err(BallotValidityError::AlternativeNotFound(7))
    );
}

#[test]
fn repeat_wins_over_unknown_alternative() {
    let b = vec![row(9, 1, 1), row(1, 2, 2), row(1, 3, 3)];
    assert_eq!(
        check_ballot(&b, &known(&[1, 2])),
        Err(BallotValidityError::DuplicateAlternative(1))
    );
}

#[test]
fn alternative_zero_is_unknown() {
    let b = vec![row(0, 1, 1)];
    assert_eq!(check_ballot_shape(&b), Ok(()));
    assert_eq!(check_ballot(&b, &known(&[1])), Err(BallotValidityError::AlternativeNotFound(0)));
}
