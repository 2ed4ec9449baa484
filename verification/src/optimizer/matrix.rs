//! Scores of candidates on examples, and which candidates are best somewhere.

use vstd::prelude::*;

use crate::trace::Score;

verus! {

/// Scores by candidate (row) and example (column). A cell may be empty.
#[derive(Debug)]
pub struct ScoreMatrix {
    columns: usize,
    rows: Vec<Vec<Option<Score>>>,
}

/// The content of a score matrix.
#[verifier::ext_equal]
pub struct MatrixView {
    pub rows: int,
    pub columns: int,
    pub scores: Map<(int, int), Score>,
}

pub open spec fn larger(a: int, b: int) -> int {
    if a < b {
        b
    } else {
        a
    }
}

impl MatrixView {
    pub open spec fn empty(columns: int) -> MatrixView {
        MatrixView { rows: 0, columns, scores: Map::empty() }
    }

    /// The matrix with one score written; it grows to hold the cell.
    pub open spec fn with_score(self, row: int, column: int, score: Score) -> MatrixView {
        MatrixView {
            rows: larger(self.rows, row + 1),
            columns: larger(self.columns, column + 1),
            scores: self.scores.insert((row, column), score),
        }
    }

    /// The matrix with at least so many rows.
    pub open spec fn with_rows(self, rows: int) -> MatrixView {
        MatrixView { rows: larger(self.rows, rows), ..self }
    }

    pub open spec fn at(self, row: int, column: int) -> Option<Score> {
        if self.scores.dom().contains((row, column)) {
            Some(self.scores[(row, column)])
        } else {
            None
        }
    }

    /// Every example has a score in the row, and there is an example.
    pub open spec fn fully_scored(self, row: int) -> bool {
        0 <= row < self.rows && self.columns > 0 && forall|c: int|
            0 <= c < self.columns ==> #[trigger] self.at(row, c) is Some
    }

    /// The highest score of a column, if it has one.
    pub open spec fn is_best(self, column: int, best: Option<Score>) -> bool {
        match best {
            Some(b) => (exists|r: int| 0 <= r < self.rows && self.at(r, column) == Some(b))
                && forall|r: int|
                0 <= r < self.rows ==> match #[trigger] self.at(r, column) {
                    Some(s) => s.key <= b.key,
                    None => true,
                },
            None => forall|r: int| 0 <= r < self.rows ==> #[trigger] self.at(r, column) is None,
        }
    }
}

/// The score ties with or beats the best of its column.
pub open spec fn wins_against(score: Option<Score>, best: Option<Score>) -> bool {
    match (score, best) {
        (Some(s), Some(b)) => s.reach >= b.key,
        _ => false,
    }
}

/// On how many of the first `n` columns the row ties with or beats the best.
pub open spec fn wins_on(
    m: MatrixView,
    row: int,
    columns: Seq<usize>,
    best: Seq<Option<Score>>,
    n: nat,
) -> nat
    decreases n,
{
    if n == 0 || n > columns.len() {
        0
    } else {
        wins_on(m, row, columns, best, (n - 1) as nat) + if wins_against(
            m.at(row, columns[n - 1] as int),
            best[n - 1],
        ) {
            1nat
        } else {
            0nat
        }
    }
}

fn set_cell(row: &mut Vec<Option<Score>>, column: usize, score: Score)
    requires
        column < usize::MAX,
    ensures
        final(row)@.len() == larger(old(row)@.len() as int, column + 1),
        forall|c: int|
            0 <= c < final(row)@.len() ==> #[trigger] final(row)@[c] == (if c == column {
                Some(score)
            } else if c < old(row)@.len() {
                old(row)@[c]
            } else {
                None
            }),
{
    while row.len() <= column
        invariant
            column < usize::MAX,
            old(row)@.len() <= row@.len() <= larger(old(row)@.len() as int, column + 1),
            forall|c: int|
                0 <= c < row@.len() ==> #[trigger] row@[c] == (if c < old(row)@.len() {
                    old(row)@[c]
                } else {
                    None
                }),
        decreases column + 1 - row@.len(),
    {
        row.push(None);
    }
    row.set(column, Some(score));
}

impl ScoreMatrix {
    pub closed spec fn wf(&self) -> bool {
        forall|r: int| 0 <= r < self.rows@.len() ==> (#[trigger] self.rows@[r])@.len() <= self.columns
    }

    spec fn cell(&self, r: int, c: int) -> Option<Score> {
        if 0 <= r < self.rows@.len() && 0 <= c < self.rows@[r]@.len() {
            self.rows@[r]@[c]
        } else {
            None
        }
    }

    pub closed spec fn view(&self) -> MatrixView {
        MatrixView {
            rows: self.rows@.len() as int,
            columns: self.columns as int,
            scores: Map::new(
                |p: (int, int)| self.cell(p.0, p.1) is Some,
                |p: (int, int)| self.cell(p.0, p.1)->0,
            ),
        }
    }

    proof fn lemma_at(&self)
        ensures
            forall|r: int, c: int| #[trigger] self@.at(r, c) == self.cell(r, c),
    {
        assert forall|r: int, c: int| #[trigger] self@.at(r, c) == self.cell(r, c) by {
            assert(self@.scores.dom().contains((r, c)) == (self.cell(r, c) is Some));
        }
    }

    /// A matrix without rows.
    pub fn new(columns: usize) -> (r: Self)
        ensures
            r.wf(),
            r@ == MatrixView::empty(columns as int),
    {
        let r = ScoreMatrix { columns, rows: Vec::new() };
        proof {
            assert(r@ =~= MatrixView::empty(columns as int));
        }
        r
    }

    pub fn candidates(&self) -> (r: usize)
        ensures
            r == self@.rows,
    {
        self.rows.len()
    }

    pub fn examples(&self) -> (r: usize)
        ensures
            r == self@.columns,
    {
        self.columns
    }

    /// Adds empty rows up to the given number.
    pub fn ensure_rows(&mut self, candidates: usize)
        requires
            old(self).wf(),
        ensures
            final(self).wf(),
            final(self)@ == old(self)@.with_rows(candidates as int),
    {
        while self.rows.len() < candidates
            invariant
                self.columns == old(self).columns,
                old(self).rows@.len() <= self.rows@.len() <= larger(
                    old(self).rows@.len() as int,
                    candidates as int,
                ),
                self.wf(),
                forall|r: int, c: int| #[trigger] self.cell(r, c) == old(self).cell(r, c),
            decreases candidates - self.rows@.len(),
        {
            let ghost before = *self;
            self.rows.push(Vec::new());
            proof {
                assert forall|r: int, c: int| #[trigger] self.cell(r, c) == old(self).cell(r, c) by {
                    assert(before.cell(r, c) == old(self).cell(r, c));
                    if 0 <= r < before.rows@.len() {
                        assert(self.rows@[r] == before.rows@[r]);
                    }
                }
                assert(self.wf());
            }
        }
        proof {
            assert(self@ =~= old(self)@.with_rows(candidates as int));
        }
    }

    /// Writes a score.
    pub fn record(&mut self, candidate: usize, example: usize, score: Score)
        requires
            old(self).wf(),
            candidate < usize::MAX,
            example < usize::MAX,
        ensures
            final(self).wf(),
            final(self)@ == old(self)@.with_score(candidate as int, example as int, score),
    {
        self.ensure_rows(candidate + 1);
        let ghost grown = *self;
        proof {
            grown.lemma_at();
            old(self).lemma_at();
        }
        if example >= self.columns {
            self.columns = example + 1;
        }
        let ghost rows_before = self.rows@;
        set_cell(&mut self.rows[candidate], example, score);
        proof {
            assert(self.rows@.len() == rows_before.len());
            assert forall|r: int| 0 <= r < self.rows@.len() && r != candidate implies self.rows@[r]
                == rows_before[r] by {}
            assert forall|r: int, c: int| #[trigger] self.cell(r, c) == (if r == candidate && c
                == example {
                Some(score)
            } else {
                grown.cell(r, c)
            }) by {
                if r == candidate {
                    let new = self.rows@[r]@;
                    let prior = rows_before[r]@;
                    if 0 <= c < new.len() {
                        assert(new[c] == (if c == example {
                            Some(score)
                        } else if c < prior.len() {
                            prior[c]
                        } else {
                            None
                        }));
                    }
                }
            }
            assert(self.wf());
            assert(self@.scores =~= old(self)@.scores.insert(
                (candidate as int, example as int),
                score,
            )) by {
                assert forall|p: (int, int)| self@.scores.dom().contains(p) == (self.cell(
                    p.0,
                    p.1,
                ) is Some) by {}
                assert forall|p: (int, int)| grown@.scores.dom().contains(p) == (grown.cell(
                    p.0,
                    p.1,
                ) is Some) by {}
                assert(grown@.scores == old(self)@.scores);
            }
            assert(self@ =~= old(self)@.with_score(candidate as int, example as int, score));
        }
    }

    /// The score in a cell.
    pub fn score(&self, candidate: usize, example: usize) -> (r: Option<Score>)
        ensures
            r == self@.at(candidate as int, example as int),
    {
        proof {
            self.lemma_at();
        }
        if candidate < self.rows.len() && example < self.rows[candidate].len() {
            self.rows[candidate][example]
        } else {
            None
        }
    }

    /// The cells of a row. A cell behind the end of the row is empty.
    pub fn row(&self, candidate: usize) -> (r: &Vec<Option<Score>>)
        requires
            candidate < self@.rows,
        ensures
            forall|c: int|
                self@.at(candidate as int, c) == (if 0 <= c < r@.len() {
                    r@[c]
                } else {
                    None
                }),
    {
        proof {
            self.lemma_at();
        }
        &self.rows[candidate]
    }

    /// The scores of a row in the order of the examples, without the empty cells.
    pub fn filled(&self, candidate: usize) -> (r: Vec<Score>)
        ensures
            r@ == filled_scores(self@, candidate as int, self@.columns as nat),
    {
        proof {
            self.lemma_at();
        }
        let mut out: Vec<Score> = Vec::new();
        let mut c: usize = 0;
        while c < self.columns
            invariant
                c <= self.columns,
                self@.columns == self.columns,
                out@ == filled_scores(self@, candidate as int, c as nat),
            decreases self.columns - c,
        {
            match self.score(candidate, c) {
                Some(s) => out.push(s),
                None => {},
            }
            c += 1;
        }
        out
    }

    /// The fully scored candidate with the highest mean; the last of several. `means` holds
    /// the order keys of the means of the rows.
    pub fn best_by_mean(&self, means: &[i64]) -> (r: Option<usize>)
        requires
            self.wf(),
            means@.len() == self@.rows,
        ensures
            match r {
                Some(i) => self@.fully_scored(i as int) && forall|j: int| #[trigger]
                    self@.fully_scored(j) ==> means@[j] <= means@[i as int] && (j > i ==> means@[j]
                        < means@[i as int]),
                None => forall|j: int| !#[trigger] self@.fully_scored(j),
            },
    {
        let mut best: Option<usize> = None;
        let mut i: usize = 0;
        while i < self.rows.len()
            invariant
                i <= self@.rows,
                self@.rows == self.rows@.len(),
                self.wf(),
                means@.len() == self@.rows,
                match best {
                    Some(b) => b < i && self@.fully_scored(b as int) && forall|j: int|
                        #![trigger self@.fully_scored(j)]
                        j < i && self@.fully_scored(j) ==> means@[j] <= means@[b as int] && (j > b
                            ==> means@[j] < means@[b as int]),
                    None => forall|j: int| j < i ==> !#[trigger] self@.fully_scored(j),
                },
            decreases self.rows@.len() - i,
        {
            if self.is_fully_scored(i) {
                match best {
                    Some(b) => {
                        if means[i] >= means[b] {
                            best = Some(i);
                        }
                    },
                    None => {
                        best = Some(i);
                    },
                }
            }
            i += 1;
        }
        best
    }

    fn is_fully_scored(&self, candidate: usize) -> (r: bool)
        requires
            self.wf(),
            candidate < self@.rows,
        ensures
            r == self@.fully_scored(candidate as int),
    {
        if self.columns == 0 {
            return false;
        }
        let mut c: usize = 0;
        while c < self.columns
            invariant
                c <= self.columns,
                self@.columns == self.columns,
                forall|k: int| 0 <= k < c ==> #[trigger] self@.at(candidate as int, k) is Some,
            decreases self.columns - c,
        {
            match self.score(candidate, c) {
                Some(_) => {},
                None => {
                    proof {
                        assert(self@.at(candidate as int, c as int) is None);
                    }
                    return false;
                },
            }
            c += 1;
        }
        true
    }

    /// Who is best where, over all examples.
    pub fn pareto(&self) -> (r: ParetoView)
        requires
            self.wf(),
        ensures
            r.describes(self@, Seq::new(self@.columns as nat, |i: int| i as usize)),
    {
        let mut columns: Vec<usize> = Vec::new();
        let mut i: usize = 0;
        while i < self.columns
            invariant
                i <= self.columns,
                columns@ == Seq::new(i as nat, |k: int| k as usize),
            decreases self.columns - i,
        {
            columns.push(i);
            i += 1;
            proof {
                assert(columns@ =~= Seq::new(i as nat, |k: int| k as usize));
            }
        }
        self.pareto_over(&columns)
    }

    fn column_best(&self, column: usize) -> (r: Option<Score>)
        requires
            self.wf(),
        ensures
            self@.is_best(column as int, r),
    {
        let mut best: Option<Score> = None;
        let mut i: usize = 0;
        while i < self.rows.len()
            invariant
                i <= self@.rows,
                self@.rows == self.rows@.len(),
                match best {
                    Some(b) => (exists|r: int|
                        0 <= r < i && self@.at(r, column as int) == Some(b)) && forall|r: int|
                        0 <= r < i ==> match #[trigger] self@.at(r, column as int) {
                            Some(s) => s.key <= b.key,
                            None => true,
                        },
                    None => forall|r: int|
                        0 <= r < i ==> #[trigger] self@.at(r, column as int) is None,
                },
            decreases self.rows@.len() - i,
        {
            let cell = self.score(i, column);
            proof {
                assert(self@.at(i as int, column as int) == cell);
            }
            match cell {
                Some(s) => match best {
                    Some(b) => {
                        if s.key >= b.key {
                            best = Some(s);
                        }
                    },
                    None => {
                        best = Some(s);
                    },
                },
                None => {},
            }
            i += 1;
        }
        best
    }

    /// Who is best where, over the given examples.
    pub fn pareto_over(&self, columns: &[usize]) -> (r: ParetoView)
        requires
            self.wf(),
        ensures
            r.describes(self@, columns@),
    {
        let mut best: Vec<Option<Score>> = Vec::new();
        let mut k: usize = 0;
        while k < columns.len()
            invariant
                k <= columns@.len(),
                self.wf(),
                best@.len() == k,
                forall|j: int|
                    0 <= j < k ==> self@.is_best(columns@[j] as int, #[trigger] best@[j]),
            decreases columns@.len() - k,
        {
            best.push(self.column_best(columns[k]));
            k += 1;
        }
        let mut wins: Vec<usize> = Vec::new();
        let mut i: usize = 0;
        while i < self.rows.len()
            invariant
                i <= self@.rows,
                self@.rows == self.rows@.len(),
                best@.len() == columns@.len(),
                wins@.len() == i,
                forall|r: int|
                    0 <= r < i ==> #[trigger] wins@[r] == wins_on(
                        self@,
                        r,
                        columns@,
                        best@,
                        columns@.len(),
                    ),
            decreases self.rows@.len() - i,
        {
            let mut count: usize = 0;
            let mut k: usize = 0;
            while k < columns.len()
                invariant
                    k <= columns@.len(),
                    best@.len() == columns@.len(),
                    count <= k,
                    count == wins_on(self@, i as int, columns@, best@, k as nat),
                decreases columns@.len() - k,
            {
                match (self.score(i, columns[k]), best[k]) {
                    (Some(s), Some(b)) => {
                        if s.reach >= b.key {
                            count += 1;
                        }
                    },
                    _ => {},
                }
                k += 1;
            }
            wins.push(count);
            i += 1;
        }
        ParetoView { best, wins }
    }
}

/// The scores among the first `n` cells of a row.
pub open spec fn filled_scores(m: MatrixView, row: int, n: nat) -> Seq<Score>
    decreases n,
{
    if n == 0 {
        Seq::empty()
    } else {
        let before = filled_scores(m, row, (n - 1) as nat);
        match m.at(row, n - 1) {
            Some(s) => before.push(s),
            None => before,
        }
    }
}

/// The best score of each column, and on how many columns each candidate ties with or beats
/// the best.
#[derive(Debug)]
pub struct ParetoView {
    pub best: Vec<Option<Score>>,
    pub wins: Vec<usize>,
}

/// Counts over the candidates of a frontier. The average coverage is `total_coverage` divided
/// by `num_candidates`.
#[derive(Clone, Copy, Debug, PartialEq, Eq, Structural)]
pub struct ParetoStatistics {
    pub num_candidates: usize,
    pub num_examples_covered: usize,
    pub total_coverage: u128,
    pub max_coverage: usize,
    pub min_coverage: usize,
}

/// How many of the first `n` columns have a score.
pub open spec fn covered(best: Seq<Option<Score>>, n: nat) -> nat
    decreases n,
{
    if n == 0 || n > best.len() {
        0
    } else {
        covered(best, (n - 1) as nat) + if best[n - 1] is Some {
            1nat
        } else {
            0nat
        }
    }
}

/// The sum of the first `n` counts.
pub open spec fn sum_of(counts: Seq<usize>, n: nat) -> nat
    decreases n,
{
    if n == 0 || n > counts.len() {
        0
    } else {
        sum_of(counts, (n - 1) as nat) + counts[n - 1] as nat
    }
}

impl ParetoView {
    /// The view says of the matrix who is best where over the columns.
    pub open spec fn describes(&self, m: MatrixView, columns: Seq<usize>) -> bool {
        &&& self.best@.len() == columns.len()
        &&& forall|k: int|
            0 <= k < columns.len() ==> m.is_best(columns[k] as int, #[trigger] self.best@[k])
        &&& self.wins@.len() == m.rows
        &&& forall|r: int|
            0 <= r < m.rows ==> #[trigger] self.wins@[r] == wins_on(
                m,
                r,
                columns,
                self.best@,
                columns.len(),
            )
    }

    /// The wins of a candidate; one without a row has none.
    pub open spec fn wins_of(&self, candidate: int) -> nat {
        if 0 <= candidate < self.wins@.len() {
            self.wins@[candidate] as nat
        } else {
            0
        }
    }

    pub fn best_scores(&self) -> (r: &Vec<Option<Score>>)
        ensures
            *r == self.best,
    {
        &self.best
    }

    pub fn wins(&self, candidate: usize) -> (r: usize)
        ensures
            r == self.wins_of(candidate as int),
    {
        if candidate < self.wins.len() {
            self.wins[candidate]
        } else {
            0
        }
    }

    /// The candidates that win somewhere, in order.
    pub fn frontier(&self) -> (r: Vec<usize>)
        ensures
            forall|i: int| #![trigger r@[i]] 0 <= i < r@.len() ==> self.wins_of(r@[i] as int) > 0,
            forall|i: int, j: int| 0 <= i < j < r@.len() ==> r@[i] < r@[j],
            forall|c: usize| self.wins_of(c as int) > 0 ==> r@.contains(c),
    {
        let mut out: Vec<usize> = Vec::new();
        let mut i: usize = 0;
        while i < self.wins.len()
            invariant
                i <= self.wins@.len(),
                forall|k: int|
                    #![trigger out@[k]]
                    0 <= k < out@.len() ==> self.wins_of(out@[k] as int) > 0 && out@[k] < i,
                forall|a: int, b: int| 0 <= a < b < out@.len() ==> out@[a] < out@[b],
                forall|c: usize| c < i && self.wins_of(c as int) > 0 ==> out@.contains(c),
            decreases self.wins@.len() - i,
        {
            if self.wins[i] > 0 {
                let ghost before = out@;
                out.push(i);
                proof {
                    assert(out@[before.len() as int] == i);
                    assert forall|c: usize| c <= i && self.wins_of(c as int) > 0 implies out@.contains(
                        c,
                    ) by {
                        if c < i {
                            assert(before.contains(c));
                            let k = choose|k: int| 0 <= k < before.len() && before[k] == c;
                            assert(out@[k] == c);
                        }
                    }
                }
            }
            i += 1;
        }
        out
    }

    /// Counts over the frontier.
    pub fn statistics(&self) -> (r: ParetoStatistics)
        ensures
            r == coverage_statistics(self.best@, positive(self.wins@, self.wins@.len())),
    {
        let mut counts: Vec<usize> = Vec::new();
        let mut i: usize = 0;
        while i < self.wins.len()
            invariant
                i <= self.wins@.len(),
                counts@ == positive(self.wins@, i as nat),
            decreases self.wins@.len() - i,
        {
            if self.wins[i] > 0 {
                counts.push(self.wins[i]);
            }
            i += 1;
        }
        statistics_of(&self.best, &counts)
    }
}

/// The counts above zero among the first `n`.
pub open spec fn positive(counts: Seq<usize>, n: nat) -> Seq<usize>
    decreases n,
{
    if n == 0 || n > counts.len() {
        Seq::empty()
    } else if counts[n - 1] > 0 {
        positive(counts, (n - 1) as nat).push(counts[n - 1])
    } else {
        positive(counts, (n - 1) as nat)
    }
}

/// The largest of the first `n` counts, 0 for none.
pub open spec fn max_of(counts: Seq<usize>, n: nat) -> usize
    decreases n,
{
    if n == 0 || n > counts.len() {
        0
    } else {
        let before = max_of(counts, (n - 1) as nat);
        if counts[n - 1] > before {
            counts[n - 1]
        } else {
            before
        }
    }
}

/// The smallest of the first `n` counts, 0 for none.
pub open spec fn min_of(counts: Seq<usize>, n: nat) -> usize
    decreases n,
{
    if n == 0 || n > counts.len() {
        0
    } else {
        let before = min_of(counts, (n - 1) as nat);
        if n == 1 || counts[n - 1] < before {
            counts[n - 1]
        } else {
            before
        }
    }
}

/// The statistics of candidates with the given coverage.
pub open spec fn coverage_statistics(
    best: Seq<Option<Score>>,
    counts: Seq<usize>,
) -> ParetoStatistics {
    ParetoStatistics {
        num_candidates: counts.len() as usize,
        num_examples_covered: covered(best, best.len()) as usize,
        total_coverage: sum_of(counts, counts.len()) as u128,
        max_coverage: max_of(counts, counts.len()),
        min_coverage: min_of(counts, counts.len()),
    }
}

pub fn statistics_of(best: &Vec<Option<Score>>, counts: &Vec<usize>) -> (r: ParetoStatistics)
    ensures
        r == coverage_statistics(best@, counts@),
        r.num_candidates == counts@.len(),
        r.num_examples_covered == covered(best@, best@.len()),
        r.total_coverage == sum_of(counts@, counts@.len()),
{
    let mut examples: usize = 0;
    let mut k: usize = 0;
    while k < best.len()
        invariant
            k <= best@.len(),
            examples <= k,
            examples == covered(best@, k as nat),
        decreases best@.len() - k,
    {
        if best[k].is_some() {
            examples += 1;
        }
        k += 1;
    }
    let mut total: u128 = 0;
    let mut max: usize = 0;
    let mut min: usize = 0;
    let mut i: usize = 0;
    while i < counts.len()
        invariant
            i <= counts@.len(),
            total == sum_of(counts@, i as nat),
            total <= i * 0xffff_ffff_ffff_ffff,
            max == max_of(counts@, i as nat),
            min == min_of(counts@, i as nat),
        decreases counts@.len() - i,
    {
        let n = counts[i];
        proof {
            assert(i * 0xffff_ffff_ffff_ffff + 0xffff_ffff_ffff_ffff
                <= 0xffff_ffff_ffff_ffff_ffff_ffff_ffff_ffff) by (nonlinear_arith)
                requires
                    i < 0xffff_ffff_ffff_ffff,
            ;
        }
        total += n as u128;
        if n > max {
            max = n;
        }
        if i == 0 || n < min {
            min = n;
        }
        i += 1;
    }
    ParetoStatistics {
        num_candidates: counts.len(),
        num_examples_covered: examples,
        total_coverage: total,
        max_coverage: max,
        min_coverage: min,
    }
}

/// Every score of the matrix is one that raising does not lower.
pub open spec fn scores_wf(m: MatrixView) -> bool {
    forall|p: (int, int)| #[trigger] m.scores.dom().contains(p) ==> m.scores[p].wf()
}

proof fn lemma_wins_counts(
    m: MatrixView,
    row: int,
    columns: Seq<usize>,
    best: Seq<Option<Score>>,
    n: nat,
    k: int,
)
    requires
        0 <= k < n <= columns.len(),
        wins_against(m.at(row, columns[k] as int), best[k]),
    ensures
        wins_on(m, row, columns, best, n) > 0,
    decreases n,
{
    if k < n - 1 {
        lemma_wins_counts(m, row, columns, best, (n - 1) as nat, k);
    }
}

/// Each column with a score has a candidate on the frontier: the one that holds the best
/// score of the column.
pub proof fn best_of_a_column_is_on_the_frontier(
    view: ParetoView,
    m: MatrixView,
    columns: Seq<usize>,
    k: int,
)
    requires
        view.describes(m, columns),
        scores_wf(m),
        0 <= k < columns.len(),
        view.best@[k] is Some,
    ensures
        exists|r: int|
            0 <= r < m.rows && m.at(r, columns[k] as int) == view.best@[k] && view.wins_of(r) > 0,
{
    assert(m.is_best(columns[k] as int, view.best@[k]));
    let b = view.best@[k]->0;
    let r = choose|r: int| 0 <= r < m.rows && m.at(r, columns[k] as int) == Some(b);
    assert(m.scores.dom().contains((r, columns[k] as int)));
    lemma_wins_counts(m, r, columns, view.best@, columns.len(), k);
    assert(view.wins_of(r) > 0);
}

/// A candidate of the frontier covers at least one example.
pub proof fn frontier_coverage_is_at_least_one(counts: Seq<usize>, n: nat)
    requires
        n <= counts.len(),
    ensures
        positive(counts, n).len() > 0 ==> min_of(positive(counts, n), positive(counts, n).len())
            >= 1,
    decreases n,
{
    if n > 0 {
        frontier_coverage_is_at_least_one(counts, (n - 1) as nat);
        let before = positive(counts, (n - 1) as nat);
        if counts[n - 1] > 0 {
            let now = before.push(counts[n - 1]);
            lemma_min_of_prefix(before, counts[n - 1], before.len());
            assert(positive(counts, n) == now);
        }
    }
}

proof fn lemma_min_of_prefix(counts: Seq<usize>, x: usize, n: nat)
    requires
        n <= counts.len(),
    ensures
        min_of(counts.push(x), n) == min_of(counts, n),
    decreases n,
{
    if n > 0 {
        lemma_min_of_prefix(counts, x, (n - 1) as nat);
        assert(counts.push(x)[n - 1] == counts[n - 1]);
    }
}

/// A score that was recorded is the one that is read, and no other cell changes.
pub proof fn recorded_scores_are_read_back(
    matrix: &mut ScoreMatrix,
    candidate: usize,
    example: usize,
    score: Score,
    a: usize,
    b: usize,
    before: Option<Score>,
    after: Option<Score>,
)
    requires
        old(matrix).wf(),
        candidate < usize::MAX,
        example < usize::MAX,
        call_ensures(ScoreMatrix::record, (matrix, candidate, example, score), ()),
        call_ensures(ScoreMatrix::score, (old(matrix), a, b), before),
        call_ensures(ScoreMatrix::score, (final(matrix), a, b), after),
    ensures
        a == candidate && b == example ==> after == Some(score),
        a != candidate || b != example ==> after == before,
{
}

proof fn lemma_a_win(
    m: MatrixView,
    row: int,
    columns: Seq<usize>,
    best: Seq<Option<Score>>,
    n: nat,
)
    requires
        n <= columns.len(),
        n <= best.len(),
    ensures
        wins_on(m, row, columns, best, n) <= n,
        wins_on(m, row, columns, best, n) > 0 ==> exists|k: int|
            0 <= k < n && wins_against(m.at(row, columns[k] as int), #[trigger] best[k]),
        wins_on(m, row, columns, best, n) == n ==> forall|k: int|
            0 <= k < n ==> wins_against(m.at(row, columns[k] as int), #[trigger] best[k]),
    decreases n,
{
    if n > 0 {
        lemma_a_win(m, row, columns, best, (n - 1) as nat);
        if wins_against(m.at(row, columns[n - 1] as int), best[n - 1]) {
            assert(best[n - 1] == best[n - 1]);
        }
    }
}

/// A candidate wins where its score, raised by the tolerance, reaches that of every other on the
/// example; it has a win exactly where there is such an example, and as many as there are examples
/// only where it wins on all.
pub proof fn candidates_win_where_none_is_out_of_reach(
    matrix: &ScoreMatrix,
    columns: &[usize],
    r: ParetoView,
    candidate: usize,
    wins: usize,
)
    requires
        matrix.wf(),
        call_ensures(ScoreMatrix::pareto_over, (matrix, columns), r),
        call_ensures(ParetoView::wins, (&r, candidate), wins),
        candidate < matrix@.rows,
    ensures
        wins <= columns@.len(),
        wins > 0 <==> exists|k: int|
            0 <= k < columns@.len() && reaches_all(
                matrix@,
                candidate as int,
                #[trigger] columns@[k] as int,
            ),
        wins == columns@.len() ==> forall|k: int|
            0 <= k < columns@.len() ==> reaches_all(
                matrix@,
                candidate as int,
                #[trigger] columns@[k] as int,
            ),
{
    lemma_a_win(matrix@, candidate as int, columns@, r.best@, columns@.len());
    assert forall|k: int| 0 <= k < columns@.len() implies wins_against(
        matrix@.at(candidate as int, columns@[k] as int),
        r.best@[k],
    ) == reaches_all(matrix@, candidate as int, #[trigger] columns@[k] as int) by {
        let c = columns@[k] as int;
        assert(matrix@.is_best(c, r.best@[k]));
        let mine = matrix@.at(candidate as int, c);
        if mine is Some && r.best@[k] is Some {
            let b = r.best@[k]->0;
            let top = choose|x: int| 0 <= x < matrix@.rows && matrix@.at(x, c) == Some(b);
            assert(matrix@.at(top, c) == Some(b));
        }
    }
    if wins > 0 {
        let k = choose|k: int|
            0 <= k < columns@.len() && wins_against(
                matrix@.at(candidate as int, columns@[k] as int),
                #[trigger] r.best@[k],
            );
        assert(reaches_all(matrix@, candidate as int, columns@[k] as int));
    }
    if exists|k: int|
        0 <= k < columns@.len() && reaches_all(
            matrix@,
            candidate as int,
            #[trigger] columns@[k] as int,
        ) {
        let k = choose|k: int|
            0 <= k < columns@.len() && reaches_all(
                matrix@,
                candidate as int,
                #[trigger] columns@[k] as int,
            );
        lemma_wins_on_has(matrix@, candidate as int, columns@, r.best@, columns@.len(), k);
    }
    if wins == columns@.len() {
        assert forall|k: int| 0 <= k < columns@.len() implies reaches_all(
            matrix@,
            candidate as int,
            #[trigger] columns@[k] as int,
        ) by {
            assert(r.best@[k] == r.best@[k]);
        }
    }
}

proof fn lemma_wins_on_has(
    m: MatrixView,
    row: int,
    columns: Seq<usize>,
    best: Seq<Option<Score>>,
    n: nat,
    k: int,
)
    requires
        0 <= k < n <= columns.len(),
        wins_against(m.at(row, columns[k] as int), best[k]),
    ensures
        wins_on(m, row, columns, best, n) > 0,
    decreases n,
{
    if k < n - 1 {
        lemma_wins_on_has(m, row, columns, best, (n - 1) as nat, k);
    }
}

/// The row has a score on the example whose raised value no other score there exceeds.
pub open spec fn reaches_all(m: MatrixView, row: int, column: int) -> bool {
    &&& m.at(row, column) is Some
    &&& forall|x: int|
        0 <= x < m.rows ==> match #[trigger] m.at(x, column) {
            Some(s) => s.key <= m.at(row, column)->0.reach,
            None => true,
        }
}

proof fn lemma_between(counts: Seq<usize>, n: nat, i: int)
    requires
        0 <= i < n <= counts.len(),
    ensures
        min_of(counts, n) <= counts[i] <= max_of(counts, n),
        counts[i] <= sum_of(counts, n),
        exists|k: int| 0 <= k < n && #[trigger] counts[k] == max_of(counts, n),
        exists|k: int| 0 <= k < n && #[trigger] counts[k] == min_of(counts, n),
    decreases n,
{
    if n == 1 {
        assert(max_of(counts, 0) == 0);
        assert(counts[0] == max_of(counts, 1));
        assert(counts[0] == min_of(counts, 1));
    } else {
        if i < n - 1 {
            lemma_between(counts, (n - 1) as nat, i);
        } else {
            lemma_between(counts, (n - 1) as nat, 0);
        }
        let k = choose|k: int| 0 <= k < n - 1 && #[trigger] counts[k] == max_of(
            counts,
            (n - 1) as nat,
        );
        let l = choose|l: int| 0 <= l < n - 1 && #[trigger] counts[l] == min_of(
            counts,
            (n - 1) as nat,
        );
        assert(counts[n - 1] == max_of(counts, n) || counts[k] == max_of(counts, n));
        assert(counts[n - 1] == min_of(counts, n) || counts[l] == min_of(counts, n));
    }
}

/// No coverage is beyond the largest and the smallest that are reported, both of which occur, and
/// every candidate is counted.
pub proof fn coverage_lies_between_what_is_reported(
    best: &Vec<Option<Score>>,
    counts: &Vec<usize>,
    r: ParetoStatistics,
    i: int,
)
    requires
        call_ensures(statistics_of, (best, counts), r),
        0 <= i < counts@.len(),
    ensures
        r.num_candidates == counts@.len(),
        r.min_coverage <= counts@[i] <= r.max_coverage,
        counts@[i] <= r.total_coverage,
        counts@.contains(r.min_coverage),
        counts@.contains(r.max_coverage),
{
    lemma_between(counts@, counts@.len(), i);
}

} // verus!
