use vstd::prelude::*;

use crate::model::{AlternativeData, BallotRow};

verus! {

/// Why a submitted ballot was refused.
#[derive(Clone, Copy, Debug, PartialEq, Eq, Structural)]
pub enum BallotValidityError {
    AlternativeNotFound(usize),
    InvalidRankRange(u64, u64),
    DuplicateAlternative(usize),
}

/// The rank band of a row is well formed.
pub open spec fn range_ok(r: BallotRow) -> bool {
    r.min <= r.max
}

pub open spec fn all_ranges_ok(b: Seq<BallotRow>) -> bool {
    forall|i: int| 0 <= i < b.len() ==> range_ok(#[trigger] b[i])
}

/// Row `i` is the first row whose rank band is empty.
pub open spec fn is_first_bad_range(b: Seq<BallotRow>, i: int) -> bool {
    &&& 0 <= i < b.len()
    &&& !range_ok(b[i])
    &&& forall|k: int| 0 <= k < i ==> range_ok(#[trigger] b[k])
}

/// Row `j` names an alternative that an earlier row already named.
pub open spec fn repeats_earlier(b: Seq<BallotRow>, j: int) -> bool {
    exists|k: int| 0 <= k < j && #[trigger] b[k].alternative == b[j].alternative
}

pub open spec fn no_repeats(b: Seq<BallotRow>) -> bool {
    forall|j: int| 0 <= j < b.len() ==> !repeats_earlier(b, j)
}

/// Row `j` is the first row that repeats an alternative.
pub open spec fn is_first_repeat(b: Seq<BallotRow>, j: int) -> bool {
    &&& 0 <= j < b.len()
    &&& repeats_earlier(b, j)
    &&& forall|k: int| 0 <= k < j ==> !repeats_earlier(b, k)
}

/// The alternative `a` is one of the known ones.
pub open spec fn is_known(known: Seq<AlternativeData>, a: usize) -> bool {
    exists|k: int| 0 <= k < known.len() && #[trigger] known[k].id == a as int
}

pub open spec fn all_known(b: Seq<BallotRow>, known: Seq<AlternativeData>) -> bool {
    forall|i: int| 0 <= i < b.len() ==> is_known(known, #[trigger] b[i].alternative)
}

/// Row `i` is the first row naming an unknown alternative.
pub open spec fn is_first_unknown(b: Seq<BallotRow>, known: Seq<AlternativeData>, i: int) -> bool {
    &&& 0 <= i < b.len()
    &&& !is_known(known, b[i].alternative)
    &&& forall|k: int| 0 <= k < i ==> is_known(known, #[trigger] b[k].alternative)
}

/// What checking the shape of a ballot yields: the first empty rank band
/// wins, then the first repeated alternative.
pub open spec fn shape_verdict(b: Seq<BallotRow>, r: Result<(), BallotValidityError>) -> bool {
    match r {
        Ok(()) => all_ranges_ok(b) && no_repeats(b),
        Err(BallotValidityError::InvalidRankRange(lo, hi)) => exists|i: int|
            is_first_bad_range(b, i) && lo == b[i].min && hi == b[i].max,
        Err(BallotValidityError::DuplicateAlternative(a)) => all_ranges_ok(b) && exists|j: int|
            is_first_repeat(b, j) && a == b[j].alternative,
        Err(BallotValidityError::AlternativeNotFound(_)) => false,
    }
}

/// What checking a ballot against the known alternatives yields: the shape
/// checks first, then the first alternative that is not known.
pub open spec fn ballot_verdict(
    b: Seq<BallotRow>,
    known: Seq<AlternativeData>,
    r: Result<(), BallotValidityError>,
) -> bool {
    match r {
        Ok(()) => all_ranges_ok(b) && no_repeats(b) && all_known(b, known),
        Err(BallotValidityError::AlternativeNotFound(a)) => all_ranges_ok(b) && no_repeats(b)
            && exists|i: int| is_first_unknown(b, known, i) && a == b[i].alternative,
        Err(e) => shape_verdict(b, Err(e)),
    }
}

/// A ballot is refused exactly when some rank band is empty, some
/// alternative is ranked twice, or some alternative is not known; an empty
/// band is reported before a repeat, and a repeat before an unknown
/// alternative.
pub proof fn lemma_ballot_verdict(
    b: Seq<BallotRow>,
    known: Seq<AlternativeData>,
    r: Result<(), BallotValidityError>,
)
    requires
        ballot_verdict(b, known, r),
    ensures
        r is Err <==> !all_ranges_ok(b) || !no_repeats(b) || !all_known(b, known),
        !all_ranges_ok(b) ==> r matches Err(BallotValidityError::InvalidRankRange(_, _)),
        all_ranges_ok(b) && !no_repeats(b) ==> r matches Err(
            BallotValidityError::DuplicateAlternative(_),
        ),
        all_ranges_ok(b) && no_repeats(b) && !all_known(b, known) ==> r matches Err(
            BallotValidityError::AlternativeNotFound(_),
        ),
{
    match r {
        Err(BallotValidityError::InvalidRankRange(_, _)) => {
            let i = choose|i: int| is_first_bad_range(b, i);
            assert(!range_ok(b[i]));
        },
        Err(BallotValidityError::DuplicateAlternative(_)) => {
            let j = choose|j: int| is_first_repeat(b, j);
            assert(repeats_earlier(b, j));
        },
        Err(BallotValidityError::AlternativeNotFound(_)) => {
            let i = choose|i: int| is_first_unknown(b, known, i);
            assert(!is_known(known, b[i].alternative));
        },
        Ok(()) => {},
    }
}

/// Checks that every rank band is well formed and that no alternative is
/// ranked twice; `check_ballot` adds the check against the known
/// alternatives.
pub fn check_ballot_shape(ballot: &[BallotRow]) -> (r: Result<(), BallotValidityError>)
    ensures
        shape_verdict(ballot@, r),
{
    let n = ballot.len();
    let mut i: usize = 0;
    while i < n
        invariant
            n == ballot@.len(),
            i <= n,
            forall|k: int| 0 <= k < i ==> range_ok(#[trigger] ballot@[k]),
        decreases n - i,
    {
        let row = ballot[i];
        if row.min > row.max {
            assert(is_first_bad_range(ballot@, i as int));
            return Err(BallotValidityError::InvalidRankRange(row.min, row.max));
        }
        i = i + 1;
    }
    let mut j: usize = 0;
    while j < n
        invariant
            n == ballot@.len(),
            j <= n,
            all_ranges_ok(ballot@),
            forall|q: int| 0 <= q < j ==> !repeats_earlier(ballot@, q),
        decreases n - j,
    {
        let mut k: usize = 0;
        while k < j
            invariant
                n == ballot@.len(),
                k <= j < n,
                all_ranges_ok(ballot@),
                forall|q: int| 0 <= q < j ==> !repeats_earlier(ballot@, q),
                forall|p: int| 0 <= p < k ==> ballot@[p].alternative != ballot@[j as int].alternative,
            decreases j - k,
        {
            if ballot[k].alternative == ballot[j].alternative {
                assert(repeats_earlier(ballot@, j as int));
                assert(is_first_repeat(ballot@, j as int));
                return Err(BallotValidityError::DuplicateAlternative(ballot[j].alternative));
            }
            k = k + 1;
        }
        j = j + 1;
    }
    Ok(())
}

/// Whether `a` is the id of one of `known`.
pub(crate) fn is_known_alternative(known: &Vec<AlternativeData>, a: usize) -> (r: bool)
    ensures
        r == is_known(known@, a),
{
    let mut k: usize = 0;
    while k < known.len()
        invariant
            k <= known@.len(),
            forall|p: int| 0 <= p < k ==> known@[p].id != a as int,
        decreases known@.len() - k,
    {
        if known[k].id >= 0 && known[k].id as u64 == a as u64 {
            return true;
        }
        k = k + 1;
    }
    false
}

/// Checks the shape of a ballot, then that each alternative it ranks is
/// one of `known`.
pub fn check_ballot(ballot: &[BallotRow], known: &Vec<AlternativeData>) -> (r: Result<
    (),
    BallotValidityError,
>)
    ensures
        ballot_verdict(ballot@, known@, r),
{
    let shape = check_ballot_shape(ballot);
    if shape.is_err() {
        return shape;
    }
    let n = ballot.len();
    let mut i: usize = 0;
    while i < n
        invariant
            n == ballot@.len(),
            i <= n,
            all_ranges_ok(ballot@),
            no_repeats(ballot@),
            forall|k: int| 0 <= k < i ==> is_known(known@, #[trigger] ballot@[k].alternative),
        decreases n - i,
    {
        if !is_known_alternative(known, ballot[i].alternative) {
            assert(is_first_unknown(ballot@, known@, i as int));
            return Err(BallotValidityError::AlternativeNotFound(ballot[i].alternative));
        }
        i = i + 1;
    }
    Ok(())
}

} // verus!
