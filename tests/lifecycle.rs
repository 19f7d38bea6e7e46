use election::ballot::BallotValidityError;
use election::data;
use election::duel::ArrowData;
use election::election::{AppState, ElectionError};
use election::model::{get_ballot, BallotRow, Database};

fn row(alternative: usize, min: u64, max: u64) -> BallotRow {
    BallotRow { elector: None, alternative, min, max }
}

type Mixed = Vec<(usize, f64)>;

fn election() -> AppState<Mixed> {
    let config: Vec<data::AlternativeData> = ["X", "Y", "Z"]
        .iter()
        .map(|n| data::AlternativeData {
            id: n.to_string(),
            description: String::new(),
            icon: String::new(),
        })
        .collect();
    AppState::new("Lunch".to_string(), Database::seeded(&config))
}

#[test]
fn new_election_is_open_without_result() {
    let e = election();
    assert!(e.is_open());
    assert_eq!(e.get_result().err(), Some(ElectionError::NotAvailable));
}

#[test]
fn info_carries_title_and_ballot() {
    let mut e = election();
    assert_eq!(e.post_ballot("a", &[row(2, 1, 1)]), Ok(()));
    let info = e.get_info("a");
    assert_eq!(info.title, Some("Lunch".to_string()));
    assert_eq!(info.alternatives.len(), 3);
    assert_eq!(info.ballot, vec![row(2, 1, 1)]);
    assert!(e.get_info("b").ballot.is_empty());
}

#[test]
fn inverted_band_is_refused_and_nothing_stored() {
    let mut e = election();
    assert_eq!(
        e.post_ballot("a", &[row(1, 3, 1)]),
        Err(ElectionError::Invalid(BallotValidityError::InvalidRankRange(3, 1)))
    );
    assert_eq!(get_ballot(&e.database, "a"), None);
}

#[test]
fn unknown_alternative_is_refused_by_election() {
    let mut e = election();
    assert_eq!(
        e.post_ballot("a", &[row(4, 1, 1)]),
        Err(ElectionError::Invalid(BallotValidityError::AlternativeNotFound(4)))
    );
    assert_eq!(
        e.post_ballot("a", &[row(1, 1, 1), row(1, 2, 2)]),
        Err(ElectionError::Invalid(BallotValidityError::DuplicateAlternative(1)))
    );
}

#[test]
fn withdrawing_without_ballot_is_not_found() {
    let mut e = election();
    assert_eq!(e.delete_ballot("a"), Err(ElectionError::NotFound));
    assert_eq!(e.post_ballot("a", &[row(1, 1, 1)]), Ok(()));
    assert_eq!(e.delete_ballot("a"), Ok(()));
    assert_eq!(get_ballot(&e.database, "a"), None);
}

#[test]
fn closed_election_refuses_ballot_changes() {
    let mut e = election();
    assert_eq!(e.post_ballot("a", &[row(1, 1, 1)]), Ok(()));
    assert_eq!(e.close(true, None), Ok(()));
    assert!(!e.is_open());
    assert_eq!(e.post_ballot("a", &[row(2, 1, 1)]), Err(ElectionError::ElectionClosed));
    assert_eq!(e.post_ballot("b", &[row(9, 3, 1)]), Err(ElectionError::ElectionClosed));
    assert_eq!(e.delete_ballot("a"), Err(ElectionError::ElectionClosed));
    assert_eq!(get_ballot(&e.database, "a"), Some(vec![row(1, 1, 1)]));
    assert_eq!(e.open(true), Ok(()));
    assert_eq!(e.post_ballot("a", &[row(2, 1, 1)]), Ok(()));
    assert_eq!(e.delete_ballot("a"), Ok(()));
}

#[test]
fn snapshot_is_frozen_while_closed() {
    let mut e = election();
    assert_eq!(e.post_ballot("a", &[row(1, 1, 1), row(2, 2, 2)]), Ok(()));
    assert_eq!(e.close(true, Some((vec![(1, 1.0)], Some(1)))), Ok(()));
    let first = e.get_result().unwrap();
    let arrows = first.arrows.clone();
    let winner = first.winner;
    assert_eq!(e.post_ballot("b", &[row(2, 1, 1), row(1, 2, 2)]), Err(ElectionError::ElectionClosed));
    assert_eq!(e.close(true, Some((vec![(2, 1.0)], Some(2)))), Ok(()));
    let second = e.get_result().unwrap();
    assert_eq!(second.arrows, arrows);
    assert_eq!(second.winner, winner);
    assert_eq!(second.strategy, Some(vec![(1, 1.0)]));
}

#[test]
fn cycle_then_reopen() {
    let mut e = election();
    assert_eq!(e.post_ballot("10.0.0.1", &[row(1, 1, 1), row(2, 2, 2), row(3, 3, 3)]), Ok(()));
    assert_eq!(e.post_ballot("10.0.0.2", &[row(2, 1, 1), row(3, 2, 2), row(1, 3, 3)]), Ok(()));
    assert_eq!(e.post_ballot("10.0.0.3", &[row(3, 1, 1), row(1, 2, 2), row(2, 3, 3)]), Ok(()));
    let graph = e.tally();
    assert_eq!(graph.vertices, vec![1, 2, 3]);
    let third = 1.0 / 3.0;
    let strategy: Mixed = vec![(1, third), (2, third), (3, third)];
    assert_eq!(e.close(true, Some((strategy, Some(2)))), Ok(()));
    let snap = e.get_result().unwrap();
    assert_eq!(snap.title, "Lunch");
    assert_eq!(snap.alternatives.len(), 3);
    assert_eq!(
        snap.arrows,
        vec![
            ArrowData { from: 1, to: 2 },
            ArrowData { from: 2, to: 3 },
            ArrowData { from: 3, to: 1 },
        ]
    );
    let total: f64 = snap.strategy.as_ref().unwrap().iter().map(|p| p.1).sum();
    assert!((total - 1.0).abs() < 1e-9);
    assert_eq!(snap.winner, Some(2));
    assert_eq!(e.open(true), Ok(()));
    assert!(e.is_open());
    assert_eq!(e.get_result().err(), Some(ElectionError::NotAvailable));
}

#[test]
fn resolver_failure_keeps_graph_only() {
    let mut e = election();
    assert_eq!(e.post_ballot("a", &[row(3, 1, 1)]), Ok(()));
    assert_eq!(e.close(true, None), Ok(()));
    let snap = e.get_result().unwrap();
    assert_eq!(
        snap.arrows,
        vec![ArrowData { from: 3, to: 1 }, ArrowData { from: 3, to: 2 }]
    );
    assert_eq!(snap.strategy, None);
    assert_eq!(snap.winner, None);
}

#[test]
fn remote_close_is_forbidden() {
    let mut e = election();
    assert_eq!(e.close(false, None), Err(ElectionError::Forbidden));
    assert!(e.is_open());
    assert_eq!(e.get_result().err(), Some(ElectionError::NotAvailable));
}

#[test]
fn remote_open_is_forbidden() {
    let mut e = election();
    assert_eq!(e.close(true, None), Ok(()));
    assert_eq!(e.open(false), Err(ElectionError::Forbidden));
    assert!(!e.is_open());
}

#[test]
fn admission_changes_nothing() {
    let mut e = election();
    assert_eq!(e.admit_ballot(&[row(1, 1, 1)]), Ok(()));
    assert_eq!(
        e.admit_ballot(&[row(1, 2, 1)]),
        Err(ElectionError::Invalid(BallotValidityError::InvalidRankRange(2, 1)))
    );
    assert_eq!(get_ballot(&e.database, "a"), None);
    assert_eq!(e.admit_withdrawal("a"), Err(ElectionError::NotFound));
    assert_eq!(e.post_ballot("a", &[row(1, 1, 1)]), Ok(()));
    assert_eq!(e.admit_withdrawal("a"), Ok(()));
    assert_eq!(get_ballot(&e.database, "a"), Some(vec![row(1, 1, 1)]));
    assert_eq!(e.close(true, None), Ok(()));
    assert_eq!(e.admit_ballot(&[row(1, 1, 1)]), Err(ElectionError::ElectionClosed));
    assert_eq!(e.admit_withdrawal("a"), Err(ElectionError::ElectionClosed));
}

#[test]
fn posted_elector_field_is_not_kept() {
    let mut e = election();
    let tagged = BallotRow { elector: Some(3), alternative: 2, min: 1, max: 1 };
    assert_eq!(e.post_ballot("a", &[tagged]), Ok(()));
    assert_eq!(e.get_info("a").ballot, vec![row(2, 1, 1)]);
}
