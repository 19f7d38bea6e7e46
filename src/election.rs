use vstd::prelude::*;

use crate::ballot::{ballot_verdict, check_ballot, BallotValidityError};
use crate::data::ResultData;
use crate::duel::{beats_matrix, build_graph, duel_arrows, DuelGraph};
use crate::model::{
    alternative_ids, collect_votes, delete_ballot, get_ballot, get_data, lookup, put, remove,
    set_ballot, stored_rows, BallotRow, Database, ElectionData, StoreView,
};

verus! {

/// Why a request to the election was refused.
#[derive(Clone, Copy, Debug, PartialEq, Eq, Structural)]
pub enum ElectionError {
    /// The ballot is malformed.
    Invalid(BallotValidityError),
    /// Ballots cannot change while the election is closed.
    ElectionClosed,
    /// The elector has no ballot.
    NotFound,
    /// Only the local host may open or close the election.
    Forbidden,
    /// There is no result while the election is open.
    NotAvailable,
}

/// The ballots held by a store, in order.
pub open spec fn stored_ballots(s: StoreView) -> Seq<Seq<BallotRow>> {
    s.map_values(|p: (Seq<char>, Seq<BallotRow>)| p.1)
}

/// The election: its title, its data, and the result frozen when it was
/// last closed. It is open exactly while there is no result. Every change
/// takes `&mut self`, so changes never interleave: a close freezes the
/// ballots of every change made before it, and while the election stays
/// closed no change to ballots is taken and the result stays as it was.
pub struct AppState<S> {
    pub title: String,
    pub database: Database,
    pub result: Option<ResultData<S>>,
}

impl<S> AppState<S> {
    /// An open election over `database`.
    pub fn new(title: String, database: Database) -> (r: Self)
        ensures
            r.title == title,
            r.database == database,
            r.result is None,
    {
        AppState { title, database, result: None }
    }

    /// Whether ballots may be cast.
    pub fn is_open(&self) -> (r: bool)
        ensures
            r == self.result is None,
    {
        self.result.is_none()
    }

    /// What elector `ip` is shown: the title, every alternative and their
    /// own ballot, empty if they have none. Allowed in either state.
    pub fn get_info(&self, ip: &str) -> (r: ElectionData)
        ensures
            r.title == Some(self.title),
            r.alternatives@ == self.database.alternative_list(),
            r.ballot@ == match lookup(self.database.store(), ip@) {
                Some(b) => b,
                None => Seq::empty(),
            },
    {
        let mut data = get_data(&self.database, ip);
        data.title = Some(self.title.clone());
        data
    }

    /// Whether `ballot` would be taken now: refused while the election is
    /// closed, then as the ballot checks decide. Nothing changes.
    pub fn admit_ballot(&self, ballot: &[BallotRow]) -> (r: Result<(), ElectionError>)
        ensures
            self.result is Some ==> r == Err::<(), ElectionError>(ElectionError::ElectionClosed),
            self.result is None ==> match r {
                Ok(()) => ballot_verdict(ballot@, self.database.alternative_list(), Ok(())),
                Err(ElectionError::Invalid(e)) => ballot_verdict(
                    ballot@,
                    self.database.alternative_list(),
                    Err(e),
                ),
                Err(_) => false,
            },
    {
        if self.result.is_some() {
            return Err(ElectionError::ElectionClosed);
        }
        let known = self.database.alternatives();
        match check_ballot(ballot, &known) {
            Ok(()) => Ok(()),
            Err(e) => Err(ElectionError::Invalid(e)),
        }
    }

    /// Whether the ballot of `ip` could be withdrawn now: refused while the
    /// election is closed, or where `ip` has no ballot. Nothing changes.
    pub fn admit_withdrawal(&self, ip: &str) -> (r: Result<(), ElectionError>)
        ensures
            self.result is Some ==> r == Err::<(), ElectionError>(ElectionError::ElectionClosed),
            self.result is None ==> match r {
                Ok(()) => lookup(self.database.store(), ip@) is Some,
                Err(ElectionError::NotFound) => lookup(self.database.store(), ip@) is None,
                Err(_) => false,
            },
    {
        if self.result.is_some() {
            return Err(ElectionError::ElectionClosed);
        }
        if get_ballot(&self.database, ip).is_none() {
            return Err(ElectionError::NotFound);
        }
        Ok(())
    }

    /// Casts or replaces the ballot of elector `ip`. A closed election
    /// refuses; otherwise the ballot is checked against the alternatives
    /// and, if sound, replaces whatever `ip` had cast before.
    pub fn post_ballot(&mut self, ip: &str, ballot: &[BallotRow]) -> (r: Result<(), ElectionError>)
        ensures
            final(self).title == old(self).title,
            final(self).result == old(self).result,
            final(self).database.alternative_list() == old(self).database.alternative_list(),
            old(self).result is Some ==> r == Err::<(), ElectionError>(ElectionError::ElectionClosed)
                && *final(self) == *old(self),
            old(self).result is None ==> match r {
                Ok(()) => ballot_verdict(ballot@, old(self).database.alternative_list(), Ok(()))
                    && final(self).database.store() == put(
                    old(self).database.store(),
                    ip@,
                    stored_rows(ballot@),
                ),
                Err(ElectionError::Invalid(e)) => ballot_verdict(
                    ballot@,
                    old(self).database.alternative_list(),
                    Err(e),
                ) && *final(self) == *old(self),
                Err(_) => false,
            },
    {
        let admitted = self.admit_ballot(ballot);
        if admitted.is_ok() {
            set_ballot(&mut self.database, ip, ballot);
        }
        admitted
    }

    /// Withdraws the ballot of elector `ip`. A closed election refuses, and
    /// so does an open one where `ip` has no ballot.
    pub fn delete_ballot(&mut self, ip: &str) -> (r: Result<(), ElectionError>)
        ensures
            final(self).title == old(self).title,
            final(self).result == old(self).result,
            final(self).database.alternative_list() == old(self).database.alternative_list(),
            old(self).result is Some ==> r == Err::<(), ElectionError>(ElectionError::ElectionClosed)
                && *final(self) == *old(self),
            old(self).result is None ==> match r {
                Ok(()) => lookup(old(self).database.store(), ip@) is Some
                    && final(self).database.store() == remove(old(self).database.store(), ip@),
                Err(ElectionError::NotFound) => lookup(old(self).database.store(), ip@) is None
                    && *final(self) == *old(self),
                Err(_) => false,
            },
    {
        let admitted = self.admit_withdrawal(ip);
        if admitted.is_ok() {
            delete_ballot(&mut self.database, ip);
        }
        admitted
    }

    /// The duel graph of the alternatives over the ballots stored now.
    pub fn tally(&self) -> (r: DuelGraph)
        ensures
            r.vertices@ == alternative_ids(self.database.alternative_list()),
            r.vertices@.no_duplicates(),
            r.matrix() == beats_matrix(
                alternative_ids(self.database.alternative_list()),
                stored_ballots(self.database.store()),
            ),
    {
        let ids = self.database.alternative_ids();
        let votes = collect_votes(&self.database);
        assert(crate::duel::ballots_view(votes.ballots@) =~= stored_ballots(self.database.store()));
        build_graph(ids.as_slice(), &votes.ballots)
    }

    /// Closes the election, on behalf of the local host only. The result is
    /// frozen then: the duel graph of the stored ballots, with `resolution`,
    /// the strategy that the resolver found for it and the winner drawn
    /// from it, if it found one. Closing a closed election keeps the result
    /// it has.
    pub fn close(&mut self, local: bool, resolution: Option<(S, Option<usize>)>) -> (r: Result<
        (),
        ElectionError,
    >)
        ensures
            final(self).title == old(self).title,
            final(self).database == old(self).database,
            local && old(self).result is None ==> alternative_ids(
                old(self).database.alternative_list(),
            ).no_duplicates(),
            !local ==> r == Err::<(), ElectionError>(ElectionError::Forbidden) && *final(self)
                == *old(self),
            local ==> r is Ok,
            local && old(self).result is Some ==> *final(self) == *old(self),
            local && old(self).result is None ==> match final(self).result {
                Some(snap) => {
                    &&& snap.title == old(self).title
                    &&& snap.alternatives@ == old(self).database.alternative_list()
                    &&& snap.arrows@ == duel_arrows(
                        alternative_ids(old(self).database.alternative_list()),
                        stored_ballots(old(self).database.store()),
                    )
                    &&& snap.strategy == match resolution {
                        Some(p) => Some(p.0),
                        None => None,
                    }
                    &&& snap.winner == match resolution {
                        Some(p) => p.1,
                        None => None,
                    }
                },
                None => false,
            },
    {
        if !local {
            return Err(ElectionError::Forbidden);
        }
        if self.result.is_some() {
            return Ok(());
        }
        let graph = self.tally();
        proof {
            assert(graph.matrix().len() == graph.beats@.len());
            assert forall|i: int| 0 <= i < graph.beats@.len() implies (
            #[trigger] graph.beats@[i])@.len() == graph.vertices@.len() by {
                assert(graph.matrix()[i] == graph.beats@[i]@);
            }
        }
        let arrows = graph.arrows();
        let (strategy, winner) = match resolution {
            Some((s, w)) => (Some(s), w),
            None => (None, None),
        };
        self.result = Some(
            ResultData {
                title: self.title.clone(),
                alternatives: self.database.alternatives(),
                arrows,
                strategy,
                winner,
            },
        );
        Ok(())
    }

    /// Opens the election again, on behalf of the local host only,
    /// discarding the result. Opening an open election changes nothing.
    pub fn open(&mut self, local: bool) -> (r: Result<(), ElectionError>)
        ensures
            !local ==> r == Err::<(), ElectionError>(ElectionError::Forbidden) && *final(self)
                == *old(self),
            local ==> r is Ok && final(self).result is None && final(self).title == old(self).title
                && final(self).database == old(self).database,
    {
        if !local {
            return Err(ElectionError::Forbidden);
        }
        self.result = None;
        Ok(())
    }

    /// The frozen result of a closed election. While the election is open
    /// there is none.
    pub fn get_result(&self) -> (r: Result<&ResultData<S>, ElectionError>)
        ensures
            match r {
                Ok(snap) => self.result == Some(*snap),
                Err(e) => self.result is None && e == ElectionError::NotAvailable,
            },
    {
        match &self.result {
            Some(snap) => Ok(snap),
            None => Err(ElectionError::NotAvailable),
        }
    }
}

} // verus!
