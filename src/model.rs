use vstd::prelude::*;

use crate::ballot::{is_known, range_ok};

verus! {

/// One entry of a ballot: the alternative and the rank band given to it
/// (lower ranks are better).
#[derive(Clone, Copy, Debug, PartialEq, Eq, Structural)]
pub struct BallotRow {
    pub elector: Option<usize>,
    pub alternative: usize,
    pub min: u64,
    pub max: u64,
}

/// An alternative as stored by the election: a numeric id and its texts.
#[derive(Clone, Debug, PartialEq, Eq)]
pub struct AlternativeData {
    pub id: i64,
    pub name: String,
    pub description: String,
    pub icon: String,
}

} // verus!

verus! {

/// Stored ballots in the order electors first voted: identity and rows.
pub type StoreView = Seq<(Seq<char>, Seq<BallotRow>)>;

/// No elector holds two ballots.
pub open spec fn keys_unique(s: StoreView) -> bool {
    forall|i: int, j: int|
        0 <= i < s.len() && 0 <= j < s.len() && i != j ==> (#[trigger] s[i]).0 != (#[trigger] s[j]).0
}

/// Position of the ballot of elector `k`, or -1 if there is none.
pub open spec fn key_index(s: StoreView, k: Seq<char>) -> int
    decreases s.len(),
{
    if s.len() == 0 {
        -1
    } else if s.last().0 == k {
        s.len() - 1
    } else {
        key_index(s.drop_last(), k)
    }
}

/// The ballot of elector `k`, if any.
pub open spec fn lookup(s: StoreView, k: Seq<char>) -> Option<Seq<BallotRow>> {
    if key_index(s, k) >= 0 {
        Some(s[key_index(s, k)].1)
    } else {
        None
    }
}

/// Storing ballot `b` for elector `k`: a whole replacement of any earlier
/// ballot, or a new entry at the end.
pub open spec fn put(s: StoreView, k: Seq<char>, b: Seq<BallotRow>) -> StoreView {
    if key_index(s, k) >= 0 {
        s.update(key_index(s, k), (k, b))
    } else {
        s.push((k, b))
    }
}

/// Withdrawing the ballot of elector `k`.
pub open spec fn remove(s: StoreView, k: Seq<char>) -> StoreView {
    if key_index(s, k) >= 0 {
        s.remove(key_index(s, k))
    } else {
        s
    }
}

/// A row as it is kept: without an elector of its own.
pub open spec fn stored_row(r: BallotRow) -> BallotRow {
    BallotRow { elector: None, alternative: r.alternative, min: r.min, max: r.max }
}

/// A ballot as it is kept.
pub open spec fn stored_rows(b: Seq<BallotRow>) -> Seq<BallotRow> {
    b.map_values(|r: BallotRow| stored_row(r))
}

/// Noting one line read back for elector `k`: a row appended to their
/// ballot, or, for `None`, an elector whose ballot is empty so far.
pub open spec fn append_entry(s: StoreView, k: Seq<char>, o: Option<BallotRow>) -> StoreView {
    match o {
        Some(r) => if key_index(s, k) >= 0 {
            s.update(key_index(s, k), (k, s[key_index(s, k)].1.push(stored_row(r))))
        } else {
            s.push((k, seq![stored_row(r)]))
        },
        None => if key_index(s, k) >= 0 {
            s
        } else {
            s.push((k, Seq::empty()))
        },
    }
}

/// Ballots assembled from lines tagged with their elector, in order.
pub open spec fn group_rows(rows: Seq<(Seq<char>, Option<BallotRow>)>) -> StoreView
    decreases rows.len(),
{
    if rows.len() == 0 {
        Seq::empty()
    } else {
        append_entry(group_rows(rows.drop_last()), rows.last().0, rows.last().1)
    }
}

/// Every alternative id can stand as a `usize`.
pub open spec fn ids_in_range(alts: Seq<AlternativeData>) -> bool {
    forall|i: int| 0 <= i < alts.len() ==> 0 <= (#[trigger] alts[i]).id <= usize::MAX
}

/// No two alternatives share an id.
pub open spec fn ids_distinct(alts: Seq<AlternativeData>) -> bool {
    forall|i: int, j: int|
        0 <= i < alts.len() && 0 <= j < alts.len() && i != j ==> (#[trigger] alts[i]).id != (
        #[trigger] alts[j]).id
}

/// A row may be kept: no elector of its own, a well-formed band, and a
/// known alternative.
pub open spec fn row_fits(r: BallotRow, alts: Seq<AlternativeData>) -> bool {
    &&& r.elector is None
    &&& range_ok(r)
    &&& is_known(alts, r.alternative)
}

/// A line read back may be kept: no row, or a row with a well-formed band
/// and a known alternative.
pub open spec fn line_fits(o: Option<BallotRow>, alts: Seq<AlternativeData>) -> bool {
    match o {
        Some(r) => range_ok(r) && is_known(alts, r.alternative),
        None => true,
    }
}

/// Every kept row fits.
pub open spec fn rows_fit(s: StoreView, alts: Seq<AlternativeData>) -> bool {
    forall|i: int, k: int|
        0 <= i < s.len() && 0 <= k < s[i].1.len() ==> row_fits(#[trigger] s[i].1[k], alts)
}

/// The data of an election is sound: alternatives with distinct ids that
/// fit a `usize`, at most one ballot per elector, and only rows that fit.
pub open spec fn store_wf(s: StoreView, alts: Seq<AlternativeData>) -> bool {
    &&& keys_unique(s)
    &&& ids_in_range(alts)
    &&& ids_distinct(alts)
    &&& rows_fit(s, alts)
}

proof fn lemma_key_index(s: StoreView, k: Seq<char>)
    ensures
        -1 <= key_index(s, k) < s.len(),
        key_index(s, k) >= 0 ==> s[key_index(s, k)].0 == k,
        key_index(s, k) == -1 <==> forall|i: int| 0 <= i < s.len() ==> (#[trigger] s[i]).0 != k,
        forall|i: int| key_index(s, k) < i < s.len() ==> (#[trigger] s[i]).0 != k,
    decreases s.len(),
{
    if s.len() > 0 {
        lemma_key_index(s.drop_last(), k);
        if s.last().0 != k {
            let d = s.drop_last();
            if key_index(d, k) == -1 {
                assert forall|i: int| 0 <= i < s.len() implies (#[trigger] s[i]).0 != k by {
                    if i < s.len() - 1 {
                        assert(s[i] == d[i]);
                    }
                }
            } else {
                assert(s[key_index(d, k)] == d[key_index(d, k)]);
                assert forall|i: int| key_index(s, k) < i < s.len() implies (#[trigger] s[i]).0 != k by {
                    if i < s.len() - 1 {
                        assert(s[i] == d[i]);
                    }
                }
            }
        }
    }
}

proof fn lemma_key_index_last(s: StoreView, k: Seq<char>, x: int)
    requires
        0 <= x < s.len(),
        s[x].0 == k,
        forall|i: int| x < i < s.len() ==> (#[trigger] s[i]).0 != k,
    ensures
        key_index(s, k) == x,
    decreases s.len(),
{
    if x < s.len() - 1 {
        let d = s.drop_last();
        assert(d[x] == s[x]);
        assert forall|i: int| x < i < d.len() implies (#[trigger] d[i]).0 != k by {
            assert(d[i] == s[i]);
        }
        lemma_key_index_last(d, k, x);
    }
}

proof fn lemma_key_index_unique(s: StoreView, i: int)
    requires
        keys_unique(s),
        0 <= i < s.len(),
    ensures
        key_index(s, s[i].0) == i,
{
    let k = s[i].0;
    lemma_key_index(s, k);
    if key_index(s, k) != i {
        assert(s[key_index(s, k)].0 == k);
    }
}

proof fn lemma_put_unique(s: StoreView, k: Seq<char>, b: Seq<BallotRow>)
    requires
        keys_unique(s),
    ensures
        keys_unique(put(s, k, b)),
        keys_unique(remove(s, k)),
{
    lemma_key_index(s, k);
    let p = put(s, k, b);
    if key_index(s, k) < 0 {
        assert forall|i: int, j: int|
            0 <= i < p.len() && 0 <= j < p.len() && i != j implies (#[trigger] p[i]).0 != (
            #[trigger] p[j]).0 by {
            if i < s.len() && j < s.len() {
                assert(p[i] == s[i] && p[j] == s[j]);
            } else if i < s.len() {
                assert(p[i] == s[i]);
            } else {
                assert(p[j] == s[j]);
            }
        }
    }
    let r = remove(s, k);
    if key_index(s, k) >= 0 {
        let x = key_index(s, k);
        assert forall|i: int, j: int|
            0 <= i < r.len() && 0 <= j < r.len() && i != j implies (#[trigger] r[i]).0 != (
            #[trigger] r[j]).0 by {
            let si = if i < x { i } else { i + 1 };
            let sj = if j < x { j } else { j + 1 };
            assert(r[i] == s[si] && r[j] == s[sj]);
        }
    }
}

proof fn lemma_put_fits(s: StoreView, k: Seq<char>, b: Seq<BallotRow>, alts: Seq<AlternativeData>)
    requires
        rows_fit(s, alts),
        forall|j: int| 0 <= j < b.len() ==> row_fits(#[trigger] b[j], alts),
    ensures
        rows_fit(put(s, k, b), alts),
        rows_fit(remove(s, k), alts),
{
    lemma_key_index(s, k);
    let x = key_index(s, k);
    let p = put(s, k, b);
    assert forall|i: int, j: int| 0 <= i < p.len() && 0 <= j < p[i].1.len() implies row_fits(
        #[trigger] p[i].1[j],
        alts,
    ) by {
        if (x >= 0 && i == x) || (x < 0 && i == s.len()) {
            assert(p[i].1 == b);
        } else {
            assert(p[i] == s[i]);
        }
    }
    let r = remove(s, k);
    assert forall|i: int, j: int| 0 <= i < r.len() && 0 <= j < r[i].1.len() implies row_fits(
        #[trigger] r[i].1[j],
        alts,
    ) by {
        let si = if x < 0 || i < x { i } else { i + 1 };
        assert(r[i] == s[si]);
    }
}

proof fn lemma_append_wf(s: StoreView, k: Seq<char>, o: Option<BallotRow>, alts: Seq<AlternativeData>)
    requires
        store_wf(s, alts),
        line_fits(o, alts),
    ensures
        store_wf(append_entry(s, k, o), alts),
{
    lemma_key_index(s, k);
    let x = key_index(s, k);
    let b = match o {
        Some(r) => if x >= 0 { s[x].1.push(stored_row(r)) } else { seq![stored_row(r)] },
        None => if x >= 0 { s[x].1 } else { Seq::empty() },
    };
    if x >= 0 {
        assert forall|j: int| 0 <= j < b.len() implies row_fits(#[trigger] b[j], alts) by {
            if j < s[x].1.len() {
                assert(b[j] == s[x].1[j]);
            }
        }
    }
    lemma_put_unique(s, k, b);
    lemma_put_fits(s, k, b, alts);
    if x >= 0 && o is None {
        assert(put(s, k, b) =~= s);
    }
    assert(append_entry(s, k, o) =~= put(s, k, b));
}

/// Replacing a ballot is total: after storing `b1` and then `b2` for the
/// same elector, exactly `b2` is retrievable, as if `b1` had never been
/// stored.
pub proof fn lemma_put_replaces(s: StoreView, e: Seq<char>, b1: Seq<BallotRow>, b2: Seq<BallotRow>)
    ensures
        lookup(put(put(s, e, b1), e, b2), e) == Some(b2),
        put(put(s, e, b1), e, b2) == put(s, e, b2),
{
    lemma_key_index(s, e);
    let p = put(s, e, b1);
    let x = if key_index(s, e) >= 0 { key_index(s, e) } else { s.len() as int };
    assert forall|i: int| x < i < p.len() implies (#[trigger] p[i]).0 != e by {
        assert(p[i] == s[i]);
    }
    lemma_key_index_last(p, e, x);
    let q = put(p, e, b2);
    assert forall|i: int| x < i < q.len() implies (#[trigger] q[i]).0 != e by {
        assert(q[i] == p[i]);
    }
    lemma_key_index_last(q, e, x);
    assert(q =~= put(s, e, b2));
}

/// Withdrawing a ballot that does not exist changes nothing; withdrawing
/// one that exists leaves the elector without a ballot.
pub proof fn lemma_remove_ballot(s: StoreView, e: Seq<char>)
    requires
        keys_unique(s),
    ensures
        lookup(s, e) is None ==> remove(s, e) == s,
        lookup(s, e) is Some ==> lookup(remove(s, e), e) is None,
{
    lemma_key_index(s, e);
    let r = remove(s, e);
    lemma_key_index(r, e);
    if key_index(s, e) >= 0 {
        let x = key_index(s, e);
        assert forall|i: int| 0 <= i < r.len() implies (#[trigger] r[i]).0 != e by {
            let si = if i < x { i } else { i + 1 };
            assert(r[i] == s[si]);
        }
    }
}

} // verus!

verus! {

/// What an elector is shown: the alternatives and their own ballot.
pub struct ElectionData {
    pub title: Option<String>,
    pub alternatives: Vec<AlternativeData>,
    pub ballot: Vec<BallotRow>,
}

/// Every stored ballot, read at once, with the alternatives.
pub struct ResultData {
    pub alternatives: Vec<AlternativeData>,
    pub ballots: Vec<Vec<BallotRow>>,
}

/// The ballot of one elector, under the elector's identity.
pub struct ElectorBallot {
    pub elector: String,
    pub rows: Vec<BallotRow>,
}

/// The stored ballots as identities and rows.
pub open spec fn entries_view(e: Seq<ElectorBallot>) -> StoreView {
    e.map_values(|x: ElectorBallot| (x.elector@, x.rows@))
}

/// Lines read back, each tagged with the identity of its elector.
pub open spec fn tagged_view(rows: Seq<(String, Option<BallotRow>)>) -> Seq<
    (Seq<char>, Option<BallotRow>),
> {
    rows.map_values(|p: (String, Option<BallotRow>)| (p.0@, p.1))
}

/// Every row among the lines has a well-formed band and a known
/// alternative.
pub open spec fn lines_fit(rows: Seq<(String, Option<BallotRow>)>, alts: Seq<AlternativeData>) -> bool {
    forall|i: int| 0 <= i < rows.len() ==> line_fits((#[trigger] rows[i]).1, alts)
}

/// The ids of `alts`, in order.
pub open spec fn alternative_ids(alts: Seq<AlternativeData>) -> Seq<usize> {
    alts.map_values(|a: AlternativeData| a.id as usize)
}

/// The election's data: its alternatives, fixed once seeded, and at most
/// one ballot per elector.
pub struct Database {
    alternatives: Vec<AlternativeData>,
    entries: Vec<ElectorBallot>,
}

impl AlternativeData {
    /// A copy of this alternative.
    pub fn duplicate(&self) -> (r: Self)
        ensures
            r == *self,
    {
        AlternativeData {
            id: self.id,
            name: self.name.clone(),
            description: self.description.clone(),
            icon: self.icon.clone(),
        }
    }
}

/// A copy of a list of alternatives.
pub fn copy_alternatives(v: &Vec<AlternativeData>) -> (r: Vec<AlternativeData>)
    ensures
        r@ == v@,
{
    let mut r: Vec<AlternativeData> = Vec::new();
    let mut i: usize = 0;
    while i < v.len()
        invariant
            i <= v@.len(),
            r@ == v@.subrange(0, i as int),
        decreases v@.len() - i,
    {
        r.push(v[i].duplicate());
        i = i + 1;
        assert(r@ =~= v@.subrange(0, i as int));
    }
    assert(r@ =~= v@);
    r
}

/// A copy of a list of rows.
pub fn copy_rows(v: &[BallotRow]) -> (r: Vec<BallotRow>)
    ensures
        r@ == v@,
{
    let mut r: Vec<BallotRow> = Vec::new();
    let mut i: usize = 0;
    while i < v.len()
        invariant
            i <= v@.len(),
            r@ == v@.subrange(0, i as int),
        decreases v@.len() - i,
    {
        r.push(v[i]);
        i = i + 1;
        assert(r@ =~= v@.subrange(0, i as int));
    }
    assert(r@ =~= v@);
    r
}


/// A list of rows as they are kept.
pub fn strip_rows(v: &[BallotRow]) -> (r: Vec<BallotRow>)
    ensures
        r@ == stored_rows(v@),
{
    let mut r: Vec<BallotRow> = Vec::new();
    let mut i: usize = 0;
    while i < v.len()
        invariant
            i <= v@.len(),
            r@ == stored_rows(v@).subrange(0, i as int),
        decreases v@.len() - i,
    {
        let row = v[i];
        r.push(BallotRow { elector: None, alternative: row.alternative, min: row.min, max: row.max });
        i = i + 1;
        assert(r@ =~= stored_rows(v@).subrange(0, i as int));
    }
    assert(r@ =~= stored_rows(v@));
    r
}

/// Whether the ids of `alternatives` fit a `usize` and are distinct.
fn alternatives_fit(alternatives: &Vec<AlternativeData>) -> (r: bool)
    ensures
        r == (ids_in_range(alternatives@) && ids_distinct(alternatives@)),
{
    let ghost a = alternatives@;
    let n = alternatives.len();
    let mut i: usize = 0;
    while i < n
        invariant
            n == a.len(),
            a == alternatives@,
            i <= n,
            forall|k: int| 0 <= k < i ==> 0 <= (#[trigger] a[k]).id <= usize::MAX,
            forall|k: int, l: int|
                0 <= k < i && 0 <= l < i && k != l ==> (#[trigger] a[k]).id != (#[trigger] a[l]).id,
        decreases n - i,
    {
        let id = alternatives[i].id;
        if id < 0 || id as u128 > usize::MAX as u128 {
            assert(!(0 <= a[i as int].id <= usize::MAX));
            return false;
        }
        let mut j: usize = 0;
        while j < i
            invariant
                n == a.len(),
                a == alternatives@,
                j <= i < n,
                id == a[i as int].id,
                forall|l: int| 0 <= l < j ==> (#[trigger] a[l]).id != id,
            decreases i - j,
        {
            if alternatives[j].id == id {
                assert(a[j as int].id == a[i as int].id);
                return false;
            }
            j = j + 1;
        }
        i = i + 1;
    }
    true
}

impl Database {
    #[verifier::type_invariant]
    spec fn inv(self) -> bool {
        store_wf(entries_view(self.entries@), self.alternatives@)
    }

    /// The stored ballots, in the order their electors first voted.
    pub closed spec fn store(self) -> StoreView {
        entries_view(self.entries@)
    }

    /// The alternatives of the election.
    pub closed spec fn alternative_list(self) -> Seq<AlternativeData> {
        self.alternatives@
    }

    /// Position of the ballot of `key`, if any.
    fn find(&self, key: &String) -> (r: Option<usize>)
        ensures
            match r {
                Some(i) => i as int == key_index(self.store(), key@),
                None => key_index(self.store(), key@) == -1,
            },
    {
        proof {
            use_type_invariant(self);
            lemma_key_index(self.store(), key@);
        }
        let mut i: usize = 0;
        while i < self.entries.len()
            invariant
                i <= self.entries@.len(),
                keys_unique(self.store()),
                forall|p: int| 0 <= p < i ==> (#[trigger] self.store()[p]).0 != key@,
            decreases self.entries@.len() - i,
        {
            if self.entries[i].elector == *key {
                proof {
                    assert(self.store()[i as int].0 == key@);
                    lemma_key_index_unique(self.store(), i as int);
                }
                return Some(i);
            }
            assert(self.store()[i as int].0 != key@);
            i = i + 1;
        }
        None
    }

    /// A database holding the configured alternatives, numbered from 1 in
    /// the order given, and no ballot.
    pub fn seeded(config: &[crate::data::AlternativeData]) -> (r: Database)
        requires
            config@.len() < 0x7fff_ffff_ffff_ffff,
        ensures
            r.store() == Seq::<(Seq<char>, Seq<BallotRow>)>::empty(),
            store_wf(r.store(), r.alternative_list()),
            r.alternative_list().len() == config@.len(),
            forall|i: int|
                0 <= i < config@.len() ==> (#[trigger] r.alternative_list()[i]) == (
                AlternativeData {
                    id: (i + 1) as i64,
                    name: config@[i].id,
                    description: config@[i].description,
                    icon: config@[i].icon,
                }),
    {
        let mut alternatives: Vec<AlternativeData> = Vec::new();
        let mut i: usize = 0;
        while i < config.len()
            invariant
                i <= config@.len() < 0x7fff_ffff_ffff_ffff,
                alternatives@.len() == i,
                forall|k: int|
                    0 <= k < i ==> (#[trigger] alternatives@[k]) == (AlternativeData {
                        id: (k + 1) as i64,
                        name: config@[k].id,
                        description: config@[k].description,
                        icon: config@[k].icon,
                    }),
            decreases config@.len() - i,
        {
            let c = &config[i];
            alternatives.push(
                AlternativeData {
                    id: i as i64 + 1,
                    name: c.id.clone(),
                    description: c.description.clone(),
                    icon: c.icon.clone(),
                },
            );
            i = i + 1;
        }
        let ghost a = alternatives@;
        assert forall|k: int, l: int|
            0 <= k < a.len() && 0 <= l < a.len() && k != l implies (#[trigger] a[k]).id != (
            #[trigger] a[l]).id by {
            assert(a[k].id == k + 1 && a[l].id == l + 1);
        }
        let r = Database { alternatives, entries: Vec::new() };
        assert(r.store() =~= Seq::<(Seq<char>, Seq<BallotRow>)>::empty());
        r
    }

    /// A database holding `alternatives` and the ballots read back as
    /// `rows`: each line names an elector and one row of their ballot, or
    /// no row for an elector whose ballot is empty. Refused, with `None`,
    /// where the ids of the alternatives repeat or do not fit a `usize`, or
    /// a row has an empty band or an unknown alternative.
    pub fn load(alternatives: Vec<AlternativeData>, rows: &Vec<(String, Option<BallotRow>)>) -> (r:
        Option<Database>)
        ensures
            r is Some <==> ids_in_range(alternatives@) && ids_distinct(alternatives@) && lines_fit(
                rows@,
                alternatives@,
            ),
            r matches Some(db) ==> db.alternative_list() == alternatives@ && db.store()
                == group_rows(tagged_view(rows@)) && store_wf(db.store(), db.alternative_list()),
    {
        if !alternatives_fit(&alternatives) {
            return None;
        }
        let mut c: usize = 0;
        while c < rows.len()
            invariant
                c <= rows@.len(),
                forall|i: int| 0 <= i < c ==> line_fits((#[trigger] rows@[i]).1, alternatives@),
            decreases rows@.len() - c,
        {
            match rows[c].1 {
                Some(row) => {
                    if row.min > row.max || !crate::ballot::is_known_alternative(
                        &alternatives,
                        row.alternative,
                    ) {
                        assert(rows@[c as int].1 == Some(row));
                        assert(!lines_fit(rows@, alternatives@));
                        return None;
                    }
                },
                None => {},
            }
            c = c + 1;
        }
        let ghost t = tagged_view(rows@);
        let mut entries: Vec<ElectorBallot> = Vec::new();
        assert(entries_view(entries@) =~= group_rows(t.subrange(0, 0)));
        let mut i: usize = 0;
        while i < rows.len()
            invariant
                i <= rows@.len(),
                t == tagged_view(rows@),
                lines_fit(rows@, alternatives@),
                ids_in_range(alternatives@),
                ids_distinct(alternatives@),
                entries_view(entries@) == group_rows(t.subrange(0, i as int)),
                store_wf(entries_view(entries@), alternatives@),
            decreases rows@.len() - i,
        {
            let ghost before = entries_view(entries@);
            proof {
                assert(t.subrange(0, i + 1).drop_last() =~= t.subrange(0, i as int));
                assert(t.subrange(0, i + 1).last() == t[i as int]);
                assert(rows@[i as int].1 == t[i as int].1);
                lemma_key_index(before, rows@[i as int].0@);
                lemma_append_wf(before, t[i as int].0, t[i as int].1, alternatives@);
            }
            let key = &rows[i].0;
            let line = rows[i].1;
            let mut found: Option<usize> = None;
            let mut k: usize = 0;
            while k < entries.len()
                invariant
                    k <= entries@.len(),
                    before == entries_view(entries@),
                    keys_unique(before),
                    found matches Some(x) ==> x < entries@.len() && before[x as int].0 == key@,
                    found is None ==> forall|p: int| 0 <= p < k ==> (#[trigger] before[p]).0 != key@,
                decreases entries@.len() - k,
            {
                if found.is_none() && entries[k].elector == *key {
                    assert(before[k as int].0 == key@);
                    found = Some(k);
                }
                k = k + 1;
            }
            proof {
                if let Some(x) = found {
                    lemma_key_index_unique(before, x as int);
                }
            }
            match (found, line) {
                (Some(x), Some(row)) => {
                    let e = entries.remove(x);
                    let mut new_rows = e.rows;
                    new_rows.push(
                        BallotRow { elector: None, alternative: row.alternative, min: row.min, max: row.max },
                    );
                    entries.insert(x, ElectorBallot { elector: e.elector, rows: new_rows });
                },
                (None, Some(row)) => {
                    let mut new_rows: Vec<BallotRow> = Vec::new();
                    new_rows.push(
                        BallotRow { elector: None, alternative: row.alternative, min: row.min, max: row.max },
                    );
                    assert(new_rows@ =~= seq![stored_row(row)]);
                    entries.push(ElectorBallot { elector: key.clone(), rows: new_rows });
                },
                (Some(_), None) => {},
                (None, None) => {
                    let new_rows: Vec<BallotRow> = Vec::new();
                    assert(new_rows@ =~= Seq::<BallotRow>::empty());
                    entries.push(ElectorBallot { elector: key.clone(), rows: new_rows });
                },
            }
            assert(entries_view(entries@) =~= append_entry(before, key@, line));
            i = i + 1;
        }
        assert(t.subrange(0, i as int) =~= t);
        Some(Database { alternatives, entries })
    }
}

} // verus!

verus! {

impl Database {
    /// Puts `entries` back in place; the data must stay sound.
    fn replace_entries(&mut self, entries: Vec<ElectorBallot>)
        requires
            store_wf(entries_view(entries@), old(self).alternative_list()),
        ensures
            final(self).store() == entries_view(entries@),
            store_wf(final(self).store(), final(self).alternative_list()),
            final(self).alternative_list() == old(self).alternative_list(),
    {
        self.entries = entries;
    }

    /// Takes the entries out, leaving none.
    fn take_entries(&mut self) -> (r: Vec<ElectorBallot>)
        ensures
            entries_view(r@) == old(self).store(),
            store_wf(entries_view(r@), old(self).alternative_list()),
            final(self).alternative_list() == old(self).alternative_list(),
    {
        proof {
            use_type_invariant(&*self);
        }
        let mut r: Vec<ElectorBallot> = Vec::new();
        proof {
            assert(entries_view(r@) =~= Seq::<(Seq<char>, Seq<BallotRow>)>::empty());
        }
        std::mem::swap(&mut r, &mut self.entries);
        r
    }

    /// The ids of the alternatives, in order.
    pub fn alternative_ids(&self) -> (r: Vec<usize>)
        ensures
            r@ == alternative_ids(self.alternative_list()),
            r@.no_duplicates(),
    {
        proof {
            use_type_invariant(self);
        }
        let mut r: Vec<usize> = Vec::new();
        let mut i: usize = 0;
        while i < self.alternatives.len()
            invariant
                i <= self.alternatives@.len(),
                ids_in_range(self.alternatives@),
                r@ == alternative_ids(self.alternatives@).subrange(0, i as int),
            decreases self.alternatives@.len() - i,
        {
            let id = self.alternatives[i].id;
            assert(0 <= self.alternatives@[i as int].id <= usize::MAX);
            r.push(id as usize);
            i = i + 1;
            assert(r@ =~= alternative_ids(self.alternatives@).subrange(0, i as int));
        }
        assert(r@ =~= alternative_ids(self.alternatives@));
        assert forall|k: int, l: int| 0 <= k < r@.len() && 0 <= l < r@.len() && k != l implies r@[k]
            != r@[l] by {
            assert(self.alternatives@[k].id != self.alternatives@[l].id);
            assert(0 <= self.alternatives@[k].id <= usize::MAX);
            assert(0 <= self.alternatives@[l].id <= usize::MAX);
        }
        r
    }

    /// A copy of the alternatives of the election.
    pub fn alternatives(&self) -> (r: Vec<AlternativeData>)
        ensures
            r@ == self.alternative_list(),
    {
        copy_alternatives(&self.alternatives)
    }
}

/// The ballot of elector `ip`, if they cast one. Its rows carry no
/// elector.
pub fn get_ballot(connection: &Database, ip: &str) -> (r: Option<Vec<BallotRow>>)
    ensures
        store_wf(connection.store(), connection.alternative_list()),
        match r {
            Some(b) => lookup(connection.store(), ip@) == Some(b@) && forall|k: int|
                0 <= k < b@.len() ==> (#[trigger] b@[k]).elector is None,
            None => lookup(connection.store(), ip@) is None,
        },
{
    let key = ip.to_owned();
    proof {
        use_type_invariant(connection);
        lemma_key_index(connection.store(), key@);
    }
    match connection.find(&key) {
        Some(i) => {
            assert(connection.store()[i as int].1 == connection.entries@[i as int].rows@);
            let b = copy_rows(connection.entries[i].rows.as_slice());
            assert forall|k: int| 0 <= k < b@.len() implies (#[trigger] b@[k]).elector is None by {
                assert(row_fits(connection.store()[i as int].1[k], connection.alternative_list()));
            }
            Some(b)
        },
        None => None,
    }
}

/// Stores `ballot` as the whole ballot of elector `ip`, replacing any
/// earlier one. Its rows are kept without an elector of their own.
pub fn set_ballot(connection: &mut Database, ip: &str, ballot: &[BallotRow])
    requires
        crate::ballot::all_ranges_ok(ballot@),
        crate::ballot::all_known(ballot@, old(connection).alternative_list()),
    ensures
        final(connection).store() == put(old(connection).store(), ip@, stored_rows(ballot@)),
        store_wf(final(connection).store(), final(connection).alternative_list()),
        final(connection).alternative_list() == old(connection).alternative_list(),
{
    let key = ip.to_owned();
    let rows = strip_rows(ballot);
    let found = connection.find(&key);
    let ghost alts = connection.alternative_list();
    let mut entries = connection.take_entries();
    let ghost before = entries_view(entries@);
    let ghost b = stored_rows(ballot@);
    proof {
        lemma_key_index(before, key@);
        lemma_put_unique(before, key@, b);
        assert forall|j: int| 0 <= j < b.len() implies row_fits(#[trigger] b[j], alts) by {
            assert(range_ok(ballot@[j]));
            assert(is_known(alts, ballot@[j].alternative));
        }
        lemma_put_fits(before, key@, b, alts);
    }
    match found {
        Some(i) => {
            entries.set(i, ElectorBallot { elector: key, rows });
        },
        None => {
            entries.push(ElectorBallot { elector: key, rows });
        },
    }
    assert(entries_view(entries@) =~= put(before, ip@, b));
    connection.replace_entries(entries);
}

/// Withdraws the ballot of elector `ip`; tells whether there was one.
pub fn delete_ballot(connection: &mut Database, ip: &str) -> (r: bool)
    ensures
        r == lookup(old(connection).store(), ip@) is Some,
        final(connection).store() == remove(old(connection).store(), ip@),
        store_wf(final(connection).store(), final(connection).alternative_list()),
        final(connection).alternative_list() == old(connection).alternative_list(),
{
    let key = ip.to_owned();
    let found = connection.find(&key);
    let ghost alts = connection.alternative_list();
    let mut entries = connection.take_entries();
    let ghost before = entries_view(entries@);
    proof {
        lemma_key_index(before, key@);
        lemma_put_unique(before, key@, Seq::empty());
        lemma_put_fits(before, key@, Seq::empty(), alts);
    }
    let r = match found {
        Some(i) => {
            entries.remove(i);
            true
        },
        None => false,
    };
    assert(entries_view(entries@) =~= remove(before, ip@));
    connection.replace_entries(entries);
    r
}

/// What elector `ip` is shown: every alternative and their ballot, empty
/// if they have none, its rows carrying no elector. The title is left for
/// the caller.
pub fn get_data(connection: &Database, ip: &str) -> (r: ElectionData)
    ensures
        r.title is None,
        r.alternatives@ == connection.alternative_list(),
        r.ballot@ == match lookup(connection.store(), ip@) {
            Some(b) => b,
            None => Seq::empty(),
        },
        forall|k: int| 0 <= k < r.ballot@.len() ==> (#[trigger] r.ballot@[k]).elector is None,
{
    let alternatives = connection.alternatives();
    let ballot = match get_ballot(connection, ip) {
        Some(b) => b,
        None => Vec::new(),
    };
    ElectionData { title: None, alternatives, ballot }
}

/// Every stored ballot, in the order their electors first voted, with the
/// alternatives.
pub fn collect_votes(connection: &Database) -> (r: ResultData)
    ensures
        r.alternatives@ == connection.alternative_list(),
        r.ballots@.len() == connection.store().len(),
        forall|i: int|
            0 <= i < r.ballots@.len() ==> (#[trigger] r.ballots@[i])@ == connection.store()[i].1,
{
    let alternatives = connection.alternatives();
    let mut ballots: Vec<Vec<BallotRow>> = Vec::new();
    let mut i: usize = 0;
    while i < connection.entries.len()
        invariant
            i <= connection.entries@.len(),
            ballots@.len() == i,
            forall|k: int| 0 <= k < i ==> (#[trigger] ballots@[k])@ == connection.store()[k].1,
        decreases connection.entries@.len() - i,
    {
        ballots.push(copy_rows(connection.entries[i].rows.as_slice()));
        i = i + 1;
    }
    ResultData { alternatives, ballots }
}

} // verus!
