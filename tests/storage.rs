use election::data;
use election::model::{
    collect_votes, delete_ballot, get_ballot, get_data, set_ballot, AlternativeData, BallotRow,
    Database,
};

fn row(alternative: usize, min: u64, max: u64) -> BallotRow {
    BallotRow { elector: None, alternative, min, max }
}

fn config(names: &[&str]) -> Vec<data::AlternativeData> {
    names
        .iter()
        .map(|n| data::AlternativeData {
            id: n.to_string(),
            description: format!("about {}", n),
            icon: format!("{}.png", n),
        })
        .collect()
}

fn seeded() -> Database {
    Database::seeded(&config(&["X", "Y", "Z"]))
}

#[test]
fn seeding_numbers_alternatives_from_one() {
    let db = seeded();
    let alts = db.alternatives();
    assert_eq!(alts.len(), 3);
    assert_eq!(
        alts[1],
        AlternativeData {
            id: 2,
            name: "Y".to_string(),
            description: "about Y".to_string(),
            icon: "Y.png".to_string(),
        }
    );
    assert_eq!(db.alternative_ids(), vec![1, 2, 3]);
    assert!(collect_votes(&db).ballots.is_empty());
}

#[test]
fn second_put_replaces_the_first_whole() {
    let mut db = seeded();
    let b1 = vec![row(1, 1, 1), row(2, 2, 2), row(3, 3, 3)];
    let b2 = vec![row(2, 1, 1)];
    set_ballot(&mut db, "10.0.0.1", &b1);
    assert_eq!(get_ballot(&db, "10.0.0.1"), Some(b1));
    set_ballot(&mut db, "10.0.0.1", &b2);
    assert_eq!(get_ballot(&db, "10.0.0.1"), Some(b2.clone()));
    let votes = collect_votes(&db);
    assert_eq!(votes.ballots, vec![b2]);
}

#[test]
fn electors_keep_separate_ballots() {
    let mut db = seeded();
    set_ballot(&mut db, "a", &[row(1, 1, 1)]);
    set_ballot(&mut db, "b", &[row(2, 1, 1)]);
    set_ballot(&mut db, "a", &[row(3, 1, 1)]);
    assert_eq!(get_ballot(&db, "a"), Some(vec![row(3, 1, 1)]));
    assert_eq!(get_ballot(&db, "b"), Some(vec![row(2, 1, 1)]));
    assert_eq!(get_ballot(&db, "c"), None);
    assert_eq!(collect_votes(&db).ballots, vec![vec![row(3, 1, 1)], vec![row(2, 1, 1)]]);
}

#[test]
fn deleting_a_missing_ballot_changes_nothing() {
    let mut db = seeded();
    set_ballot(&mut db, "a", &[row(1, 1, 1)]);
    assert!(!delete_ballot(&mut db, "b"));
    assert_eq!(get_ballot(&db, "a"), Some(vec![row(1, 1, 1)]));
    assert_eq!(collect_votes(&db).ballots, vec![vec![row(1, 1, 1)]]);
}

#[test]
fn deleting_a_ballot_removes_it() {
    let mut db = seeded();
    set_ballot(&mut db, "a", &[row(1, 1, 1)]);
    set_ballot(&mut db, "b", &[row(2, 1, 1)]);
    assert!(delete_ballot(&mut db, "a"));
    assert_eq!(get_ballot(&db, "a"), None);
    assert_eq!(collect_votes(&db).ballots, vec![vec![row(2, 1, 1)]]);
    assert!(!delete_ballot(&mut db, "a"));
}

#[test]
fn data_for_an_elector_without_ballot() {
    let db = seeded();
    let d = get_data(&db, "a");
    assert_eq!(d.title, None);
    assert_eq!(d.alternatives.len(), 3);
    assert!(d.ballot.is_empty());
}

#[test]
fn loading_groups_rows_by_elector() {
    let alts = seeded().alternatives();
    let rows = vec![
        ("a".to_string(), Some(row(1, 1, 1))),
        ("b".to_string(), Some(row(2, 1, 1))),
        ("a".to_string(), Some(row(2, 2, 2))),
        ("b".to_string(), Some(row(3, 2, 2))),
        ("c".to_string(), Some(row(3, 1, 1))),
        ("d".to_string(), None),
    ];
    let db = Database::load(alts.clone(), &rows).unwrap();
    assert_eq!(db.alternatives(), alts);
    assert_eq!(get_ballot(&db, "a"), Some(vec![row(1, 1, 1), row(2, 2, 2)]));
    assert_eq!(get_ballot(&db, "b"), Some(vec![row(2, 1, 1), row(3, 2, 2)]));
    assert_eq!(get_ballot(&db, "c"), Some(vec![row(3, 1, 1)]));
    assert_eq!(get_ballot(&db, "d"), Some(vec![]));
    assert_eq!(collect_votes(&db).ballots.len(), 4);
}

#[test]
fn loading_drops_the_elector_of_rows() {
    let alts = seeded().alternatives();
    let tagged = BallotRow { elector: Some(7), alternative: 2, min: 1, max: 1 };
    let db = Database::load(alts, &vec![("a".to_string(), Some(tagged))]).unwrap();
    assert_eq!(get_ballot(&db, "a"), Some(vec![row(2, 1, 1)]));
}

#[test]
fn loading_refuses_repeated_ids() {
    let mut alts = seeded().alternatives();
    alts[2].id = 1;
    assert!(Database::load(alts, &Vec::new()).is_none());
}

#[test]
fn loading_refuses_negative_ids() {
    let mut alts = seeded().alternatives();
    alts[0].id = -4;
    assert!(Database::load(alts, &Vec::new()).is_none());
}

#[test]
fn loading_refuses_unfit_rows() {
    let alts = seeded().alternatives();
    let inverted = vec![("a".to_string(), Some(row(1, 2, 1)))];
    assert!(Database::load(alts.clone(), &inverted).is_none());
    let unknown = vec![("a".to_string(), Some(row(9, 1, 1)))];
    assert!(Database::load(alts, &unknown).is_none());
}

#[test]
fn stored_rows_carry_no_elector() {
    let mut db = seeded();
    let tagged = vec![BallotRow { elector: Some(7), alternative: 1, min: 1, max: 2 }];
    set_ballot(&mut db, "a", &tagged);
    assert_eq!(get_ballot(&db, "a"), Some(vec![row(1, 1, 2)]));
    assert_eq!(get_data(&db, "a").ballot, vec![row(1, 1, 2)]);
}
