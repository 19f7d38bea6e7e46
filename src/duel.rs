use vstd::prelude::*;

use crate::ballot::{all_ranges_ok, range_ok};
use crate::model::BallotRow;

verus! {

/// An edge of the duel graph: `from` beats `to` head to head.
#[derive(Clone, Copy, Debug, PartialEq, Eq, Structural)]
pub struct ArrowData {
    pub from: usize,
    pub to: usize,
}

/// The rank band that ballot `b` gives alternative `a`: that of the first
/// row naming it, or none if `a` is unranked.
pub open spec fn band_of(b: Seq<BallotRow>, a: usize) -> Option<(u64, u64)>
    decreases b.len(),
{
    if b.len() == 0 {
        None
    } else if b[0].alternative == a {
        Some((b[0].min, b[0].max))
    } else {
        band_of(b.drop_first(), a)
    }
}

/// Ballot `b` ranks `x` strictly ahead of `y`: the whole band of `x` lies
/// before that of `y`, or `x` is ranked and `y` is not.
pub open spec fn prefers(b: Seq<BallotRow>, x: usize, y: usize) -> bool {
    match (band_of(b, x), band_of(b, y)) {
        (Some(bx), Some(by)) => bx.1 < by.0,
        (Some(_), None) => true,
        _ => false,
    }
}

/// How many of `ballots` rank `x` strictly ahead of `y`.
pub open spec fn support(ballots: Seq<Seq<BallotRow>>, x: usize, y: usize) -> nat
    decreases ballots.len(),
{
    if ballots.len() == 0 {
        0
    } else {
        support(ballots.drop_last(), x, y) + if prefers(ballots.last(), x, y) {
            1nat
        } else {
            0nat
        }
    }
}

/// `x` beats `y`: more ballots rank `x` ahead of `y` than the reverse.
pub open spec fn beats(ballots: Seq<Seq<BallotRow>>, x: usize, y: usize) -> bool {
    support(ballots, x, y) > support(ballots, y, x)
}

/// The duel relation over `v`, as a matrix indexed like `v`.
pub open spec fn beats_matrix(v: Seq<usize>, ballots: Seq<Seq<BallotRow>>) -> Seq<Seq<bool>> {
    Seq::new(v.len(), |i: int| Seq::new(v.len(), |j: int| beats(ballots, v[i], v[j])))
}

/// The ballots as sequences of rows.
pub open spec fn ballots_view(ballots: Seq<Vec<BallotRow>>) -> Seq<Seq<BallotRow>> {
    ballots.map_values(|b: Vec<BallotRow>| b@)
}

/// The edges out of vertex `i` towards the first `upto` vertices.
pub open spec fn row_arrows(v: Seq<usize>, m: Seq<Seq<bool>>, i: int, upto: int) -> Seq<ArrowData>
    decreases upto,
{
    if upto <= 0 {
        Seq::empty()
    } else if m[i][upto - 1] {
        row_arrows(v, m, i, upto - 1).push(ArrowData { from: v[i], to: v[upto - 1] })
    } else {
        row_arrows(v, m, i, upto - 1)
    }
}

/// The edges out of the first `rows` vertices, row by row.
pub open spec fn arrow_list(v: Seq<usize>, m: Seq<Seq<bool>>, rows: int) -> Seq<ArrowData>
    decreases rows,
{
    if rows <= 0 {
        Seq::empty()
    } else {
        arrow_list(v, m, rows - 1) + row_arrows(v, m, rows - 1, v.len() as int)
    }
}

/// Every edge of the duel relation over `v`, row by row.
pub open spec fn duel_arrows(v: Seq<usize>, ballots: Seq<Seq<BallotRow>>) -> Seq<ArrowData> {
    arrow_list(v, beats_matrix(v, ballots), v.len() as int)
}

/// The head-to-head relation between alternatives: `beats[i][j]` holds
/// when `vertices[i]` beats `vertices[j]`.
pub struct DuelGraph {
    pub vertices: Vec<usize>,
    pub beats: Vec<Vec<bool>>,
}

impl DuelGraph {
    pub open spec fn matrix(self) -> Seq<Seq<bool>> {
        self.beats@.map_values(|r: Vec<bool>| r@)
    }
}

proof fn lemma_support_bound(ballots: Seq<Seq<BallotRow>>, x: usize, y: usize)
    ensures
        support(ballots, x, y) <= ballots.len(),
    decreases ballots.len(),
{
    if ballots.len() > 0 {
        lemma_support_bound(ballots.drop_last(), x, y);
    }
}

proof fn lemma_band_of_row(b: Seq<BallotRow>, a: usize)
    requires
        all_ranges_ok(b),
    ensures
        band_of(b, a) matches Some(p) ==> p.0 <= p.1,
    decreases b.len(),
{
    if b.len() > 0 {
        assert(range_ok(b[0]));
        assert(all_ranges_ok(b.drop_first())) by {
            assert forall|i: int| 0 <= i < b.drop_first().len() implies range_ok(
                #[trigger] b.drop_first()[i],
            ) by {
                assert(b.drop_first()[i] == b[i + 1]);
            }
        }
        lemma_band_of_row(b.drop_first(), a);
    }
}

proof fn lemma_support_count(ballots: Seq<Seq<BallotRow>>, x: usize, y: usize)
    ensures
        (forall|i: int| 0 <= i < ballots.len() ==> prefers(#[trigger] ballots[i], x, y)) ==> support(
            ballots,
            x,
            y,
        ) == ballots.len(),
        (forall|i: int| 0 <= i < ballots.len() ==> !prefers(#[trigger] ballots[i], x, y))
            ==> support(ballots, x, y) == 0,
    decreases ballots.len(),
{
    if ballots.len() > 0 {
        let d = ballots.drop_last();
        lemma_support_count(d, x, y);
        assert forall|i: int| 0 <= i < d.len() implies #[trigger] d[i] == ballots[i] by {}
        assert(ballots.last() == ballots[ballots.len() - 1]);
    }
}

/// When there is at least one ballot, every ballot ranks `x` strictly
/// ahead of `y`, and every rank band is well formed, `x` beats `y` and `y`
/// does not beat `x`.
pub proof fn lemma_unanimous(ballots: Seq<Seq<BallotRow>>, x: usize, y: usize)
    requires
        ballots.len() > 0,
        forall|i: int| 0 <= i < ballots.len() ==> all_ranges_ok(#[trigger] ballots[i]),
        forall|i: int| 0 <= i < ballots.len() ==> prefers(#[trigger] ballots[i], x, y),
    ensures
        beats(ballots, x, y),
        !beats(ballots, y, x),
{
    assert forall|i: int| 0 <= i < ballots.len() implies !prefers(#[trigger] ballots[i], y, x) by {
        assert(prefers(ballots[i], x, y));
        lemma_band_of_row(ballots[i], x);
        lemma_band_of_row(ballots[i], y);
    }
    lemma_support_count(ballots, x, y);
    lemma_support_count(ballots, y, x);
}

/// The matrix is square with side `n`.
pub open spec fn square(m: Seq<Seq<bool>>, n: int) -> bool {
    m.len() == n && forall|i: int| 0 <= i < n ==> (#[trigger] m[i]).len() == n
}

proof fn lemma_row_arrows(v: Seq<usize>, m: Seq<Seq<bool>>, i: int, upto: int)
    requires
        v.no_duplicates(),
        square(m, v.len() as int),
        0 <= i < v.len(),
        0 <= upto <= v.len(),
    ensures
        row_arrows(v, m, i, upto).no_duplicates(),
        forall|x: ArrowData|
            row_arrows(v, m, i, upto).contains(x) <==> exists|j: int|
                0 <= j < upto && m[i][j] && x == (ArrowData { from: v[i], to: #[trigger] v[j] }),
    decreases upto,
{
    if upto > 0 {
        lemma_row_arrows(v, m, i, upto - 1);
        let prev = row_arrows(v, m, i, upto - 1);
        let cur = row_arrows(v, m, i, upto);
        let last = ArrowData { from: v[i], to: v[upto - 1] };
        if m[i][upto - 1] {
            assert(cur == prev.push(last));
            assert(!prev.contains(last)) by {
                if prev.contains(last) {
                    let j = choose|j: int|
                        0 <= j < upto - 1 && m[i][j] && last == (ArrowData {
                            from: v[i],
                            to: #[trigger] v[j],
                        });
                    assert(v[j] == v[upto - 1]);
                }
            }
            assert forall|x: ArrowData| cur.contains(x) <==> exists|j: int|
                0 <= j < upto && m[i][j] && x == (ArrowData { from: v[i], to: #[trigger] v[j] }) by {
                if cur.contains(x) {
                    let k = choose|k: int| 0 <= k < cur.len() && cur[k] == x;
                    if k < prev.len() {
                        assert(prev[k] == x);
                        assert(prev.contains(x));
                    } else {
                        assert(x == last);
                    }
                }
                if exists|j: int|
                    0 <= j < upto && m[i][j] && x == (ArrowData { from: v[i], to: #[trigger] v[j] }) {
                    let j = choose|j: int|
                        0 <= j < upto && m[i][j] && x == (ArrowData { from: v[i], to: #[trigger] v[j] });
                    if j < upto - 1 {
                        assert(prev.contains(x));
                        let k = choose|k: int| 0 <= k < prev.len() && prev[k] == x;
                        assert(cur[k] == x);
                    } else {
                        assert(cur[cur.len() - 1] == x);
                    }
                }
            }
            assert forall|a: int, b: int| 0 <= a < cur.len() && 0 <= b < cur.len() && a != b implies cur[a]
                != cur[b] by {
                if a < prev.len() && b < prev.len() {
                    assert(cur[a] == prev[a] && cur[b] == prev[b]);
                } else if a < prev.len() {
                    assert(cur[a] == prev[a] && prev.contains(prev[a]));
                } else if b < prev.len() {
                    assert(cur[b] == prev[b] && prev.contains(prev[b]));
                }
            }
        } else {
            assert forall|x: ArrowData| cur.contains(x) <==> exists|j: int|
                0 <= j < upto && m[i][j] && x == (ArrowData { from: v[i], to: #[trigger] v[j] }) by {
                if exists|j: int|
                    0 <= j < upto && m[i][j] && x == (ArrowData { from: v[i], to: #[trigger] v[j] }) {
                    let j = choose|j: int|
                        0 <= j < upto && m[i][j] && x == (ArrowData { from: v[i], to: #[trigger] v[j] });
                    assert(j != upto - 1);
                }
            }
        }
    }
}

proof fn lemma_arrow_list(v: Seq<usize>, m: Seq<Seq<bool>>, rows: int)
    requires
        v.no_duplicates(),
        square(m, v.len() as int),
        0 <= rows <= v.len(),
    ensures
        arrow_list(v, m, rows).no_duplicates(),
        forall|x: ArrowData|
            arrow_list(v, m, rows).contains(x) <==> exists|i: int, j: int|
                0 <= i < rows && 0 <= j < v.len() && m[i][j] && x == (ArrowData {
                    from: #[trigger] v[i],
                    to: #[trigger] v[j],
                }),
    decreases rows,
{
    if rows > 0 {
        let r = rows - 1;
        lemma_arrow_list(v, m, r);
        lemma_row_arrows(v, m, r, v.len() as int);
        let a = arrow_list(v, m, r);
        let b = row_arrows(v, m, r, v.len() as int);
        let c = arrow_list(v, m, rows);
        assert(c == a + b);
        assert forall|x: ArrowData| c.contains(x) <==> exists|i: int, j: int|
            0 <= i < rows && 0 <= j < v.len() && m[i][j] && x == (ArrowData {
                from: #[trigger] v[i],
                to: #[trigger] v[j],
            }) by {
            if c.contains(x) {
                let k = choose|k: int| 0 <= k < c.len() && c[k] == x;
                if k < a.len() {
                    assert(a[k] == x);
                    assert(a.contains(x));
                } else {
                    assert(b[k - a.len()] == x);
                    assert(b.contains(x));
                }
            }
            if exists|i: int, j: int|
                0 <= i < rows && 0 <= j < v.len() && m[i][j] && x == (ArrowData {
                    from: #[trigger] v[i],
                    to: #[trigger] v[j],
                }) {
                let (i, j) = choose|i: int, j: int|
                    0 <= i < rows && 0 <= j < v.len() && m[i][j] && x == (ArrowData {
                        from: #[trigger] v[i],
                        to: #[trigger] v[j],
                    });
                if i < r {
                    assert(a.contains(x));
                    let k = choose|k: int| 0 <= k < a.len() && a[k] == x;
                    assert(c[k] == x);
                } else {
                    assert(b.contains(x));
                    let k = choose|k: int| 0 <= k < b.len() && b[k] == x;
                    assert(c[a.len() + k] == x);
                }
            }
        }
        assert forall|p: int, q: int| 0 <= p < c.len() && 0 <= q < c.len() && p != q implies c[p]
            != c[q] by {
            if p < a.len() && q < a.len() {
                assert(c[p] == a[p] && c[q] == a[q]);
            } else if p >= a.len() && q >= a.len() {
                assert(c[p] == b[p - a.len()] && c[q] == b[q - a.len()]);
            } else {
                let (pa, qb) = if p < a.len() { (p, q) } else { (q, p) };
                assert(c[pa] == a[pa] && a.contains(a[pa]));
                assert(c[qb] == b[qb - a.len()] && b.contains(b[qb - a.len()]));
                let x = a[pa];
                let y = b[qb - a.len()];
                let (i, j) = choose|i: int, j: int|
                    0 <= i < r && 0 <= j < v.len() && m[i][j] && x == (ArrowData {
                        from: #[trigger] v[i],
                        to: #[trigger] v[j],
                    });
                let j2 = choose|j2: int|
                    0 <= j2 < v.len() && m[r][j2] && y == (ArrowData { from: v[r], to: #[trigger] v[j2] });
                assert(v[i] != v[r]);
            }
        }
    }
}

/// With distinct vertices, the edges of the duel graph name each pair of
/// alternatives where the first beats the second exactly once, and
/// nothing else; in particular no alternative has an edge to itself.
pub proof fn lemma_duel_arrows(v: Seq<usize>, ballots: Seq<Seq<BallotRow>>)
    requires
        v.no_duplicates(),
    ensures
        duel_arrows(v, ballots).no_duplicates(),
        forall|a: usize, b: usize|
            duel_arrows(v, ballots).contains(ArrowData { from: a, to: b }) <==> v.contains(a)
                && v.contains(b) && beats(ballots, a, b),
        forall|a: usize| !duel_arrows(v, ballots).contains(ArrowData { from: a, to: a }),
{
    let m = beats_matrix(v, ballots);
    lemma_arrow_list(v, m, v.len() as int);
    let d = duel_arrows(v, ballots);
    assert forall|a: usize, b: usize|
        d.contains(ArrowData { from: a, to: b }) <==> v.contains(a) && v.contains(b) && beats(
            ballots,
            a,
            b,
        ) by {
        let x = ArrowData { from: a, to: b };
        if v.contains(a) && v.contains(b) && beats(ballots, a, b) {
            let i = choose|i: int| 0 <= i < v.len() && v[i] == a;
            let j = choose|j: int| 0 <= j < v.len() && v[j] == b;
            assert(m[i][j]);
            assert(x == (ArrowData { from: v[i], to: v[j] }));
        }
        if d.contains(x) {
            let (i, j) = choose|i: int, j: int|
                0 <= i < v.len() && 0 <= j < v.len() && m[i][j] && x == (ArrowData {
                    from: #[trigger] v[i],
                    to: #[trigger] v[j],
                });
            assert(v.contains(v[i]) && v.contains(v[j]));
        }
    }
}

/// The rank band that `ballot` gives `a`.
fn find_band(ballot: &Vec<BallotRow>, a: usize) -> (r: Option<(u64, u64)>)
    ensures
        r == band_of(ballot@, a),
{
    let n = ballot.len();
    let mut i: usize = 0;
    assert(ballot@.subrange(0, n as int) =~= ballot@);
    while i < n
        invariant
            n == ballot@.len(),
            i <= n,
            band_of(ballot@, a) == band_of(ballot@.subrange(i as int, n as int), a),
        decreases n - i,
    {
        let ghost rest = ballot@.subrange(i as int, n as int);
        assert(rest.drop_first() =~= ballot@.subrange(i + 1, n as int));
        assert(rest[0] == ballot@[i as int]);
        if ballot[i].alternative == a {
            return Some((ballot[i].min, ballot[i].max));
        }
        i = i + 1;
    }
    None
}

/// Whether `ballot` ranks `x` strictly ahead of `y`.
fn ballot_prefers(ballot: &Vec<BallotRow>, x: usize, y: usize) -> (r: bool)
    ensures
        r == prefers(ballot@, x, y),
{
    match (find_band(ballot, x), find_band(ballot, y)) {
        (Some(bx), Some(by)) => bx.1 < by.0,
        (Some(_), None) => true,
        _ => false,
    }
}

/// Whether `x` beats `y` over `ballots`.
pub fn duel(ballots: &Vec<Vec<BallotRow>>, x: usize, y: usize) -> (r: bool)
    ensures
        r == beats(ballots_view(ballots@), x, y),
{
    let ghost bv = ballots_view(ballots@);
    let mut for_x: usize = 0;
    let mut for_y: usize = 0;
    let mut k: usize = 0;
    while k < ballots.len()
        invariant
            k <= ballots@.len(),
            bv == ballots_view(ballots@),
            for_x == support(bv.subrange(0, k as int), x, y),
            for_y == support(bv.subrange(0, k as int), y, x),
        decreases ballots@.len() - k,
    {
        proof {
            let s = bv.subrange(0, k + 1);
            assert(s.drop_last() =~= bv.subrange(0, k as int));
            assert(s.last() == ballots@[k as int]@);
            lemma_support_bound(bv.subrange(0, k as int), x, y);
            lemma_support_bound(bv.subrange(0, k as int), y, x);
        }
        if ballot_prefers(&ballots[k], x, y) {
            for_x = for_x + 1;
        }
        if ballot_prefers(&ballots[k], y, x) {
            for_y = for_y + 1;
        }
        k = k + 1;
    }
    assert(bv.subrange(0, k as int) =~= bv);
    for_x > for_y
}

/// Builds the duel graph of `alternatives` over `ballots`.
pub fn build_graph(alternatives: &[usize], ballots: &Vec<Vec<BallotRow>>) -> (r: DuelGraph)
    ensures
        r.vertices@ == alternatives@,
        r.matrix() == beats_matrix(alternatives@, ballots_view(ballots@)),
{
    let ghost m = beats_matrix(alternatives@, ballots_view(ballots@));
    let n = alternatives.len();
    let mut vertices: Vec<usize> = Vec::new();
    let mut rows: Vec<Vec<bool>> = Vec::new();
    let mut i: usize = 0;
    while i < n
        invariant
            n == alternatives@.len(),
            m == beats_matrix(alternatives@, ballots_view(ballots@)),
            i <= n,
            vertices@ == alternatives@.subrange(0, i as int),
            rows@.len() == i,
            forall|p: int| 0 <= p < i ==> (#[trigger] rows@[p])@ == m[p],
        decreases n - i,
    {
        let mut row: Vec<bool> = Vec::new();
        let mut j: usize = 0;
        while j < n
            invariant
                n == alternatives@.len(),
                m == beats_matrix(alternatives@, ballots_view(ballots@)),
                i < n,
                j <= n,
                row@ == m[i as int].subrange(0, j as int),
            decreases n - j,
        {
            row.push(duel(ballots, alternatives[i], alternatives[j]));
            j = j + 1;
            assert(row@ =~= m[i as int].subrange(0, j as int));
        }
        assert(row@ =~= m[i as int]);
        vertices.push(alternatives[i]);
        rows.push(row);
        i = i + 1;
        assert(vertices@ =~= alternatives@.subrange(0, i as int));
    }
    assert(vertices@ =~= alternatives@);
    let r = DuelGraph { vertices, beats: rows };
    assert(r.matrix() =~= m);
    r
}

impl DuelGraph {
    /// The edges of the graph, row by row.
    pub fn arrows(&self) -> (r: Vec<ArrowData>)
        requires
            self.beats@.len() == self.vertices@.len(),
            forall|i: int|
                0 <= i < self.beats@.len() ==> (#[trigger] self.beats@[i])@.len()
                    == self.vertices@.len(),
        ensures
            r@ == arrow_list(self.vertices@, self.matrix(), self.vertices@.len() as int),
    {
        let ghost m = self.matrix();
        let ghost v = self.vertices@;
        let n = self.vertices.len();
        let mut out: Vec<ArrowData> = Vec::new();
        let mut i: usize = 0;
        while i < n
            invariant
                n == v.len(),
                m == self.matrix(),
                v == self.vertices@,
                self.beats@.len() == n,
                forall|p: int| 0 <= p < n ==> (#[trigger] self.beats@[p])@.len() == n,
                i <= n,
                out@ == arrow_list(v, m, i as int),
            decreases n - i,
        {
            let ghost before = out@;
            let mut j: usize = 0;
            while j < n
                invariant
                    n == v.len(),
                    m == self.matrix(),
                    v == self.vertices@,
                    self.beats@.len() == n,
                    forall|p: int| 0 <= p < n ==> (#[trigger] self.beats@[p])@.len() == n,
                    i < n,
                    j <= n,
                    out@ == before + row_arrows(v, m, i as int, j as int),
                decreases n - j,
            {
                assert(m[i as int][j as int] == self.beats@[i as int]@[j as int]);
                if self.beats[i][j] {
                    out.push(ArrowData { from: self.vertices[i], to: self.vertices[j] });
                }
                j = j + 1;
                assert(out@ =~= before + row_arrows(v, m, i as int, j as int));
            }
            i = i + 1;
        }
        out
    }
}

} // verus!
