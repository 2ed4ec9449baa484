//! A frontier of candidates that are each best on some example.

use vstd::prelude::*;

use crate::optimizer::matrix;
use crate::optimizer::matrix::{MatrixView, ParetoStatistics, ParetoView, ScoreMatrix};
use crate::optimizer::trial;
use crate::random;
use crate::trace::Score;

verus! {

/// An instruction that evolved for one predictor. `average` is the place of its average score
/// among all scores.
#[derive(Debug)]
pub struct GEPACandidate {
    pub id: usize,
    pub instruction: String,
    pub module_name: String,
    pub example_scores: Vec<Score>,
    pub average: i64,
    pub parent_id: Option<usize>,
    pub generation: usize,
}

/// The content of a candidate.
pub struct GepaView {
    pub id: usize,
    pub instruction: Seq<char>,
    pub module_name: Seq<char>,
    pub example_scores: Seq<Score>,
    pub average: i64,
    pub parent_id: Option<usize>,
    pub generation: usize,
}

impl View for GEPACandidate {
    type V = GepaView;

    open spec fn view(&self) -> GepaView {
        GepaView {
            id: self.id,
            instruction: self.instruction@,
            module_name: self.module_name@,
            example_scores: self.example_scores@,
            average: self.average,
            parent_id: self.parent_id,
            generation: self.generation,
        }
    }
}

pub fn copy_scores(scores: &[Score]) -> (r: Vec<Score>)
    ensures
        r@ == scores@,
{
    let mut out: Vec<Score> = Vec::new();
    let mut i: usize = 0;
    while i < scores.len()
        invariant
            i <= scores@.len(),
            out@ == scores@.take(i as int),
        decreases scores@.len() - i,
    {
        out.push(scores[i]);
        i += 1;
        proof {
            assert(scores@.take(i as int) =~= scores@.take(i - 1).push(scores@[i - 1]));
        }
    }
    proof {
        assert(scores@.take(i as int) =~= scores@);
    }
    out
}

impl Clone for GEPACandidate {
    fn clone(&self) -> (r: Self)
        ensures
            r@ == self@,
            r.instruction == self.instruction,
            r.module_name == self.module_name,
    {
        GEPACandidate {
            id: self.id,
            instruction: self.instruction.clone(),
            module_name: self.module_name.clone(),
            example_scores: copy_scores(&self.example_scores),
            average: self.average,
            parent_id: self.parent_id,
            generation: self.generation,
        }
    }
}

impl GEPACandidate {
    /// A child with another instruction. It has no number and no scores yet.
    pub fn mutate(&self, new_instruction: String, generation: usize) -> (r: Self)
        ensures
            r@ == (GepaView {
                id: 0,
                instruction: new_instruction@,
                module_name: self.module_name@,
                example_scores: Seq::empty(),
                average: 0,
                parent_id: Some(self.id),
                generation,
            }),
    {
        GEPACandidate {
            id: 0,
            instruction: new_instruction,
            module_name: self.module_name.clone(),
            example_scores: Vec::new(),
            average: 0,
            parent_id: Some(self.id),
            generation,
        }
    }
}

/// The candidates that are on the frontier, and the scores of all that ever were.
#[derive(Debug)]
pub struct ParetoFrontier {
    pub matrix: ScoreMatrix,
    pub candidates: Vec<GEPACandidate>,
    pub rows: Vec<usize>,
    pub next_id: usize,
}

/// The score ties with or beats the best, or there is none to beat.
pub open spec fn reaches(score: Score, best: Option<Score>) -> bool {
    match best {
        Some(b) => score.reach >= b.key,
        None => true,
    }
}

/// The scores written into a row, up to the first `n`.
pub open spec fn with_row(m: MatrixView, row: int, scores: Seq<Score>, n: nat) -> MatrixView
    decreases n,
{
    if n == 0 || n > scores.len() {
        m
    } else {
        with_row(m, row, scores, (n - 1) as nat).with_score(row, n - 1, scores[n - 1])
    }
}

/// The positions among the first `n` whose row wins somewhere.
pub open spec fn winners(wins: Seq<usize>, rows: Seq<usize>, n: nat) -> Seq<int>
    decreases n,
{
    if n == 0 || n > rows.len() {
        Seq::empty()
    } else if rows[n - 1] < wins.len() && wins[rows[n - 1] as int] > 0 {
        winners(wins, rows, (n - 1) as nat).push(n - 1)
    } else {
        winners(wins, rows, (n - 1) as nat)
    }
}

/// The score wins on the example.
pub open spec fn wins_at(m: MatrixView, score: Score, example: int) -> bool {
    forall|best: Option<Score>| #[trigger] m.is_best(example, best) ==> reaches(score, best)
}

/// The scores win on some example of the matrix.
pub open spec fn wins_somewhere(m: MatrixView, scores: Seq<Score>) -> bool {
    exists|e: int| 0 <= e < scores.len() && #[trigger] wins_at(m, scores[e], e)
}

fn best_at(view: &ParetoView, example: usize) -> (r: Option<Score>)
    ensures
        r == (if example < view.best@.len() {
            view.best@[example as int]
        } else {
            None
        }),
{
    if example < view.best.len() {
        view.best[example]
    } else {
        None
    }
}

impl ParetoFrontier {
    /// Each candidate has a row of its own, and no score can be lowered by raising it.
    pub open spec fn wf(&self) -> bool {
        &&& self.matrix.wf()
        &&& matrix::scores_wf(self.matrix@)
        &&& self.rows@.len() == self.candidates@.len()
        &&& forall|i: int| 0 <= i < self.rows@.len() ==> #[trigger] self.rows@[i]
            < self.matrix@.rows
        &&& forall|p: (int, int)| #[trigger]
            self.matrix@.scores.dom().contains(p) ==> 0 <= p.0 < self.matrix@.rows && 0 <= p.1
                < self.matrix@.columns
    }

    pub fn new() -> (r: Self)
        ensures
            r.wf(),
            r.candidates@.len() == 0,
            r.matrix@ == MatrixView::empty(0),
            r.next_id == 0,
    {
        ParetoFrontier {
            matrix: ScoreMatrix::new(0),
            candidates: Vec::new(),
            rows: Vec::new(),
            next_id: 0,
        }
    }

    pub fn len(&self) -> (r: usize)
        ensures
            r == self.candidates@.len(),
    {
        self.candidates.len()
    }

    pub fn is_empty(&self) -> (r: bool)
        ensures
            r == (self.candidates@.len() == 0),
    {
        self.candidates.len() == 0
    }

    pub fn candidates(&self) -> (r: &Vec<GEPACandidate>)
        ensures
            *r == self.candidates,
    {
        &self.candidates
    }

    /// How often each candidate of the frontier wins.
    pub fn coverages(&self, view: &ParetoView) -> (r: Vec<usize>)
        ensures
            r@.len() == self.rows@.len(),
            forall|i: int|
                0 <= i < r@.len() ==> #[trigger] r@[i] == view.wins_of(self.rows@[i] as int),
    {
        let mut out: Vec<usize> = Vec::new();
        let mut i: usize = 0;
        while i < self.rows.len()
            invariant
                i <= self.rows@.len(),
                out@.len() == i,
                forall|k: int|
                    0 <= k < i ==> #[trigger] out@[k] == view.wins_of(self.rows@[k] as int),
            decreases self.rows@.len() - i,
        {
            out.push(view.wins(self.rows[i]));
            i += 1;
        }
        out
    }

    /// Offers a candidate to the frontier. One that wins nowhere is refused and leaves the
    /// frontier as it is; another one joins it, and those that no longer win anywhere leave.
    pub fn add_candidate(&mut self, candidate: GEPACandidate, scores: &[Score]) -> (r: bool)
        requires
            old(self).wf(),
            old(self).next_id < usize::MAX,
            old(self).matrix@.rows < usize::MAX,
            forall|i: int| 0 <= i < scores@.len() ==> (#[trigger] scores@[i]).wf(),
        ensures
            final(self).wf(),
            final(self).next_id == old(self).next_id + 1,
            r == wins_somewhere(old(self).matrix@, scores@),
            !r ==> {
                &&& final(self).matrix == old(self).matrix
                &&& final(self).candidates == old(self).candidates
                &&& final(self).rows == old(self).rows
            },
            r ==> {
                let row = old(self).matrix@.rows as usize;
                let all_rows = old(self).rows@.push(row);
                let named = GepaView {
                    id: old(self).next_id,
                    example_scores: scores@,
                    ..candidate@
                };
                exists|view: ParetoView, joined: GEPACandidate| #[trigger]
                    joined@ == named && #[trigger] view.describes(
                        final(self).matrix@,
                        matrix_columns(final(self).matrix@),
                    ) && final(self).matrix@ == with_row(
                        old(self).matrix@,
                        row as int,
                        scores@,
                        scores@.len(),
                    ) && ({
                        let at = winners(view.wins@, all_rows, all_rows.len());
                        let all = old(self).candidates@.push(joined);
                        &&& final(self).candidates@ == Seq::new(at.len(), |i: int| all[at[i]])
                        &&& final(self).rows@ == Seq::new(at.len(), |i: int| all_rows[at[i]])
                    })
            },
    {
        let ghost start = *self;
        let scores_copy = copy_scores(scores);
        let mut candidate = candidate;
        candidate.id = self.next_id;
        candidate.example_scores = scores_copy;
        self.next_id = self.next_id + 1;
        let best = self.matrix.pareto();
        let mut found: bool = false;
        let mut e: usize = 0;
        while e < scores.len()
            invariant
                e <= scores@.len(),
                self.matrix == start.matrix,
                start.wf(),
                best.describes(start.matrix@, matrix_columns(start.matrix@)),
                found ==> wins_somewhere(start.matrix@, scores@),
                !found ==> forall|k: int|
                    0 <= k < e ==> !#[trigger] wins_at(start.matrix@, scores@[k], k),
            decreases scores@.len() - e,
        {
            let top = best_at(&best, e);
            proof {
                lemma_best_is_best(start, best, e as int, top);
            }
            let wins = match top {
                Some(b) => scores[e].reach >= b.key,
                None => true,
            };
            proof {
                if wins {
                    assert forall|b: Option<Score>| #[trigger]
                        start.matrix@.is_best(e as int, b) implies reaches(scores@[e as int], b) by {
                        lemma_best_unique(start.matrix@, e as int, top, b);
                    }
                    assert(wins_at(start.matrix@, scores@[e as int], e as int));
                    assert(wins_somewhere(start.matrix@, scores@));
                } else {
                    assert(start.matrix@.is_best(e as int, top));
                }
            }
            found = found || wins;
            e += 1;
        }
        if !found {
            return false;
        }
        let row = self.matrix.candidates();
        let mut k: usize = 0;
        while k < scores.len()
            invariant
                k <= scores@.len(),
                row == start.matrix@.rows,
                row < usize::MAX,
                self.matrix.wf(),
                matrix::scores_wf(self.matrix@),
                self.candidates == start.candidates,
                self.rows == start.rows,
                self.next_id == start.next_id + 1,
                self.matrix@ == with_row(start.matrix@, row as int, scores@, k as nat),
                k > 0 ==> self.matrix@.rows == row + 1,
                k == 0 ==> self.matrix@.rows == row,
                forall|i: int| 0 <= i < scores@.len() ==> (#[trigger] scores@[i]).wf(),
                forall|p: (int, int)| #[trigger]
                    self.matrix@.scores.dom().contains(p) ==> 0 <= p.0 < self.matrix@.rows && 0
                        <= p.1 < self.matrix@.columns,
            decreases scores@.len() - k,
        {
            let n = scores.len();
            let ghost prior = self.matrix@;
            self.matrix.record(row, k, scores[k]);
            k += 1;
            proof {
                assert(matrix::scores_wf(self.matrix@)) by {
                    assert forall|p: (int, int)| #[trigger]
                        self.matrix@.scores.dom().contains(p) implies self.matrix@.scores[p].wf() by {
                        if p != (row as int, (k - 1) as int) {
                            assert(prior.scores.dom().contains(p));
                        }
                    }
                }
                assert forall|p: (int, int)| #[trigger]
                    self.matrix@.scores.dom().contains(p) implies 0 <= p.0 < self.matrix@.rows && 0
                    <= p.1 < self.matrix@.columns by {
                    if p != (row as int, (k - 1) as int) {
                        assert(prior.scores.dom().contains(p));
                    }
                }
            }
        }
        let ghost joined = candidate;
        self.candidates.push(candidate);
        self.rows.push(row);
        let view = self.matrix.pareto();
        let ghost all = self.candidates@;
        let ghost all_rows = self.rows@;
        let ghost m = self.matrix@;
        let mut kept_candidates: Vec<GEPACandidate> = Vec::new();
        let mut kept_rows: Vec<usize> = Vec::new();
        let mut rest: Vec<GEPACandidate> = Vec::new();
        std::mem::swap(&mut rest, &mut self.candidates);
        let mut i: usize = 0;
        while i < self.rows.len()
            invariant
                i <= self.rows@.len(),
                self.rows@ == all_rows,
                all.len() == all_rows.len(),
                rest@ == all.skip(i as int),
                self.matrix@ == m,
                self.matrix.wf(),
                self.next_id == start.next_id + 1,
                view.describes(m, matrix_columns(m)),
                kept_candidates@ == Seq::new(
                    winners(view.wins@, all_rows, i as nat).len(),
                    |k: int| all[winners(view.wins@, all_rows, i as nat)[k]],
                ),
                kept_rows@ == Seq::new(
                    winners(view.wins@, all_rows, i as nat).len(),
                    |k: int| all_rows[winners(view.wins@, all_rows, i as nat)[k]],
                ),
                forall|j: int| 0 <= j < kept_rows@.len() ==> #[trigger] kept_rows@[j] < m.rows,
            decreases self.rows@.len() - i,
        {
            let item = rest.remove(0);
            let ghost before = winners(view.wins@, all_rows, i as nat);
            if view.wins(self.rows[i]) > 0 {
                kept_candidates.push(item);
                kept_rows.push(self.rows[i]);
            }
            i += 1;
            proof {
                let now = winners(view.wins@, all_rows, i as nat);
                assert(rest@ =~= all.skip(i as int));
                if now.len() > before.len() {
                    assert(now == before.push(i - 1));
                } else {
                    assert(now == before);
                }
                assert(kept_candidates@ =~= Seq::new(now.len(), |k: int| all[now[k]]));
                assert(kept_rows@ =~= Seq::new(now.len(), |k: int| all_rows[now[k]]));
            }
        }
        self.candidates = kept_candidates;
        self.rows = kept_rows;
        proof {
            assert(joined@ == (GepaView {
                id: old(self).next_id,
                example_scores: scores@,
                ..old(self).candidates@.push(joined).last()@
            }));
            assert(all == start.candidates@.push(joined));
            assert(all_rows == start.rows@.push(row));
            assert(view.describes(self.matrix@, matrix_columns(self.matrix@)));
        }
        true
    }

    /// A candidate of the frontier, drawn in proportion to how often it wins.
    pub fn sample_proportional_to_coverage(&self) -> (r: Option<&GEPACandidate>)
        requires
            self.wf(),
            coverage_fits(*self),
        ensures
            r is None <==> self.candidates@.len() == 0,
            r is Some ==> exists|i: int|
                0 <= i < self.candidates@.len() && *r->0 == #[trigger] self.candidates@[i]
                    && draws(*self, i),
    {
        if self.candidates.len() == 0 {
            return None;
        }
        let view = self.matrix.pareto();
        let weights = self.coverages(&view);
        proof {
            assert(view.describes(self.matrix@, matrix_columns(self.matrix@)));
            assert(coverage_list(*self, view, weights@));
        }
        let total = trial::total_weight(&weights);
        let drawn: usize = if total == 0 {
            0
        } else {
            random::thread_below(total)
        };
        let at = trial::pick(&weights, drawn);
        proof {
            let n = drawn as nat;
            assert(coverage_list(*self, view, weights@) && trial::picked(weights@, n, at as int));
            assert(draws(*self, at as int));
        }
        Some(&self.candidates[at])
    }

    /// The candidate that a drawn number stands for.
    pub fn candidate_for(&self, view: &ParetoView, drawn: usize) -> (r: usize)
        requires
            self.wf(),
            self.candidates@.len() > 0,
            forall|w: Seq<usize>|
                #![trigger matrix::sum_of(w, w.len())]
                coverage_list(*self, *view, w) ==> matrix::sum_of(w, w.len()) <= usize::MAX && (
                matrix::sum_of(w, w.len()) > 0 ==> drawn < matrix::sum_of(w, w.len())),
        ensures
            r < self.candidates@.len(),
            exists|w: Seq<usize>|
                coverage_list(*self, *view, w) && #[trigger] trial::picked(
                    w,
                    drawn as nat,
                    r as int,
                ),
    {
        let weights = self.coverages(view);
        proof {
            assert(coverage_list(*self, *view, weights@));
            assert(matrix::sum_of(weights@, weights@.len()) <= usize::MAX);
        }
        trial::pick(&weights, drawn)
    }

    /// The candidate with the highest average, the last of several.
    pub fn best_by_average(&self) -> (r: Option<&GEPACandidate>)
        ensures
            match r {
                Some(c) => exists|i: int|
                    0 <= i < self.candidates@.len() && *c == #[trigger] self.candidates@[i]
                        && forall|j: int|
                        0 <= j < self.candidates@.len() ==> (#[trigger] self.candidates@[j]).average
                            <= c.average && (j > i ==> self.candidates@[j].average < c.average),
                None => self.candidates@.len() == 0,
            },
    {
        if self.candidates.len() == 0 {
            return None;
        }
        let mut best: usize = 0;
        let mut i: usize = 1;
        while i < self.candidates.len()
            invariant
                best < i <= self.candidates@.len(),
                forall|j: int|
                    0 <= j < i ==> (#[trigger] self.candidates@[j]).average
                        <= self.candidates@[best as int].average && (j > best
                        ==> self.candidates@[j].average < self.candidates@[best as int].average),
            decreases self.candidates@.len() - i,
        {
            if self.candidates[i].average >= self.candidates[best].average {
                best = i;
            }
            i += 1;
        }
        let r = &self.candidates[best];
        proof {
            assert(*r == self.candidates@[best as int]);
        }
        Some(r)
    }

    /// Counts over the frontier.
    pub fn statistics(&self) -> (r: ParetoStatistics)
        requires
            self.wf(),
        ensures
            exists|view: ParetoView, counts: Seq<usize>| #[trigger]
                view.describes(self.matrix@, matrix_columns(self.matrix@)) && #[trigger]
                coverage_list(*self, view, counts) && r == matrix::coverage_statistics(
                    view.best@,
                    counts,
                ),
    {
        let view = self.matrix.pareto();
        let counts = self.coverages(&view);
        proof {
            assert(view.describes(self.matrix@, matrix_columns(self.matrix@)));
            assert(coverage_list(*self, view, counts@));
        }
        matrix::statistics_of(&view.best, &counts)
    }
}

/// All columns of the matrix.
pub open spec fn matrix_columns(m: MatrixView) -> Seq<usize> {
    Seq::new(m.columns as nat, |i: int| i as usize)
}

/// How often each candidate of the frontier wins.
pub open spec fn coverage_list(f: ParetoFrontier, view: ParetoView, counts: Seq<usize>) -> bool {
    &&& counts.len() == f.rows@.len()
    &&& forall|i: int|
        0 <= i < counts.len() ==> #[trigger] counts[i] == view.wins_of(f.rows@[i] as int)
}

/// The candidate may be drawn: in proportion to how often it wins.
pub open spec fn draws(f: ParetoFrontier, i: int) -> bool {
    exists|view: ParetoView, w: Seq<usize>, drawn: nat|
        view.describes(f.matrix@, matrix_columns(f.matrix@)) && #[trigger] coverage_list(
            f,
            view,
            w,
        ) && #[trigger] trial::picked(w, drawn, i)
}

/// The wins of the frontier together fit a counter.
pub open spec fn coverage_fits(f: ParetoFrontier) -> bool {
    forall|view: ParetoView, w: Seq<usize>|
        #![trigger coverage_list(f, view, w)]
        view.describes(f.matrix@, matrix_columns(f.matrix@)) && coverage_list(f, view, w)
            ==> matrix::sum_of(w, w.len()) <= usize::MAX
}

proof fn lemma_best_unique(m: MatrixView, column: int, a: Option<Score>, b: Option<Score>)
    requires
        m.is_best(column, a),
        m.is_best(column, b),
    ensures
        a is Some == b is Some,
        a is Some ==> a->0.key == b->0.key,
{
    match (a, b) {
        (Some(x), Some(y)) => {
            let i = choose|r: int| 0 <= r < m.rows && m.at(r, column) == Some(x);
            let j = choose|r: int| 0 <= r < m.rows && m.at(r, column) == Some(y);
            assert(m.at(i, column) == Some(x) && m.at(j, column) == Some(y));
        },
        (Some(x), None) => {
            let i = choose|r: int| 0 <= r < m.rows && m.at(r, column) == Some(x);
            assert(m.at(i, column) is None);
        },
        (None, Some(y)) => {
            let j = choose|r: int| 0 <= r < m.rows && m.at(r, column) == Some(y);
            assert(m.at(j, column) is None);
        },
        _ => {},
    }
}

proof fn lemma_best_is_best(f: ParetoFrontier, view: ParetoView, e: int, top: Option<Score>)
    requires
        f.wf(),
        view.describes(f.matrix@, matrix_columns(f.matrix@)),
        e >= 0,
        top == (if e < view.best@.len() {
            view.best@[e]
        } else {
            None
        }),
    ensures
        f.matrix@.is_best(e, top),
{
    let m = f.matrix@;
    if e < view.best@.len() {
        assert(matrix_columns(m)[e] == e as usize);
        assert(m.is_best(matrix_columns(m)[e] as int, view.best@[e]));
        assert(view.best.len() == view.best@.len());
    } else {
        assert forall|r: int| 0 <= r < m.rows implies #[trigger] m.at(r, e) is None by {
            if m.scores.dom().contains((r, e)) {
                assert(e < m.columns);
            }
        }
    }
}

/// A row that wins nowhere decides no column: in each one another row holds the best score,
/// and that score stays out of its reach. Leaving it out changes no best score.
pub proof fn rows_without_wins_never_decide(
    m: MatrixView,
    view: ParetoView,
    row: int,
    column: int,
)
    requires
        view.describes(m, matrix_columns(m)),
        matrix::scores_wf(m),
        0 <= row < m.rows,
        0 <= column < m.columns,
        m.columns <= usize::MAX,
        view.wins_of(row) == 0,
        m.at(row, column) is Some,
    ensures
        exists|r: int|
            0 <= r < m.rows && r != row && #[trigger] m.at(r, column) is Some && m.at(
                row,
                column,
            )->0.key < m.at(r, column)->0.key && m.is_best(column, m.at(r, column)),
{
    let columns = matrix_columns(m);
    assert(columns[column] as int == column);
    assert(m.is_best(columns[column] as int, view.best@[column]));
    let s = m.at(row, column)->0;
    assert(m.scores.dom().contains((row, column)));
    if wins_here(m, view, row, column) {
        lemma_a_win_counts(m, row, columns, view.best@, columns.len(), column);
        assert(false);
    }
    let b = view.best@[column]->0;
    let r = choose|r: int| 0 <= r < m.rows && m.at(r, column) == Some(b);
    assert(m.at(r, column) == Some(b));
}

spec fn wins_here(m: MatrixView, view: ParetoView, row: int, column: int) -> bool {
    matrix::wins_against(m.at(row, column), view.best@[column])
}

proof fn lemma_a_win_counts(
    m: MatrixView,
    row: int,
    columns: Seq<usize>,
    best: Seq<Option<Score>>,
    n: nat,
    k: int,
)
    requires
        0 <= k < n <= columns.len(),
        matrix::wins_against(m.at(row, columns[k] as int), best[k]),
    ensures
        matrix::wins_on(m, row, columns, best, n) > 0,
    decreases n,
{
    if k < n - 1 {
        lemma_a_win_counts(m, row, columns, best, (n - 1) as nat, k);
    }
}

/// A candidate joins the frontier exactly where it does as well on some example as all before it.
/// One that does not leaves the frontier as it is.
pub proof fn candidates_join_by_winning_an_example(
    frontier: &mut ParetoFrontier,
    candidate: GEPACandidate,
    scores: &[Score],
    r: bool,
)
    requires
        old(frontier).wf(),
        call_ensures(ParetoFrontier::add_candidate, (frontier, candidate, scores), r),
    ensures
        r ==> exists|e: int|
            0 <= e < scores@.len() && forall|x: int|
                0 <= x < old(frontier).matrix@.rows ==> match #[trigger] old(frontier).matrix@.at(x, e) {
                    Some(s) => s.key <= (#[trigger] scores@[e]).reach,
                    None => true,
                },
        !r ==> final(frontier).candidates@ == old(frontier).candidates@ && final(frontier).matrix
            == old(frontier).matrix,
        old(frontier).matrix@.rows == 0 && scores@.len() > 0 ==> r,
        final(frontier).next_id == old(frontier).next_id + 1,
{
    let m = old(frontier).matrix@;
    if r {
        let e = choose|e: int| 0 <= e < scores@.len() && #[trigger] wins_at(m, scores@[e], e);
        if m.rows >= 0 {
            let best = lemma_has_best(m, e, m.rows);
            assert(m.is_best(e, best));
            assert(reaches(scores@[e], best));
        }
        assert forall|x: int| 0 <= x < m.rows implies match #[trigger] m.at(x, e) {
            Some(s) => s.key <= scores@[e].reach,
            None => true,
        } by {}
    }
    if m.rows == 0 && scores@.len() > 0 {
        assert forall|best: Option<Score>| #[trigger] m.is_best(0, best) implies reaches(
            scores@[0],
            best,
        ) by {}
        assert(wins_at(m, scores@[0], 0));
    }
}

proof fn lemma_has_best(m: MatrixView, column: int, rows: int) -> (best: Option<Score>)
    requires
        0 <= rows <= m.rows,
    ensures
        match best {
            Some(b) => (exists|x: int| 0 <= x < rows && m.at(x, column) == Some(b)) && forall|x: int|
                0 <= x < rows ==> match #[trigger] m.at(x, column) {
                    Some(s) => s.key <= b.key,
                    None => true,
                },
            None => forall|x: int| 0 <= x < rows ==> #[trigger] m.at(x, column) is None,
        },
    decreases rows,
{
    if rows == 0 {
        None
    } else {
        let before = lemma_has_best(m, column, rows - 1);
        match (before, m.at(rows - 1, column)) {
            (Some(b), Some(s)) => if s.key > b.key {
                assert(m.at(rows - 1, column) == Some(s));
                Some(s)
            } else {
                let x = choose|x: int| 0 <= x < rows - 1 && m.at(x, column) == Some(b);
                assert(m.at(x, column) == Some(b));
                Some(b)
            },
            (Some(b), None) => {
                let x = choose|x: int| 0 <= x < rows - 1 && m.at(x, column) == Some(b);
                assert(m.at(x, column) == Some(b));
                Some(b)
            },
            (None, Some(s)) => {
                assert(m.at(rows - 1, column) == Some(s));
                Some(s)
            },
            (None, None) => None,
        }
    }
}

proof fn lemma_winner(wins: Seq<usize>, rows: Seq<usize>, n: nat, i: int)
    requires
        n <= rows.len(),
    ensures
        0 <= i < n && rows[i] < wins.len() && wins[rows[i] as int] > 0 ==> winners(
            wins,
            rows,
            n,
        ).contains(i),
        forall|k: int|
            0 <= k < winners(wins, rows, n).len() ==> 0 <= #[trigger] winners(wins, rows, n)[k] < n
                && rows[winners(wins, rows, n)[k]] < wins.len()
                && wins[rows[winners(wins, rows, n)[k]] as int] > 0,
    decreases n,
{
    if n > 0 {
        lemma_winner(wins, rows, (n - 1) as nat, i);
        let before = winners(wins, rows, (n - 1) as nat);
        let now = winners(wins, rows, n);
        if 0 <= i < n && rows[i] < wins.len() && wins[rows[i] as int] > 0 {
            if i == n - 1 {
                assert(now[before.len() as int] == i);
            } else {
                let at = before.index_of(i);
                assert(now[at] == i);
            }
        }
        assert forall|k: int| 0 <= k < now.len() implies 0 <= #[trigger] now[k] < n && rows[now[k]]
            < wins.len() && wins[rows[now[k]] as int] > 0 by {
            if k < before.len() {
                assert(now[k] == before[k]);
            }
        }
    }
}

/// When a candidate joins, exactly those stay on the frontier that still win somewhere, the new
/// one with its own scores and a number of its own.
pub proof fn the_frontier_keeps_those_that_win(
    frontier: &mut ParetoFrontier,
    candidate: GEPACandidate,
    scores: &[Score],
    i: int,
)
    requires
        old(frontier).wf(),
        old(frontier).matrix@.rows < usize::MAX,
        call_ensures(ParetoFrontier::add_candidate, (frontier, candidate, scores), true),
        0 <= i <= old(frontier).candidates@.len(),
    ensures
        exists|view: ParetoView| #[trigger]
            view.describes(final(frontier).matrix@, matrix_columns(final(frontier).matrix@)) && ({
                let row = if i < old(frontier).candidates@.len() {
                    old(frontier).rows@[i] as int
                } else {
                    old(frontier).matrix@.rows
                };
                view.wins_of(row) > 0 ==> exists|k: int|
                    0 <= k < final(frontier).candidates@.len() && final(frontier).rows@[k] == row
                        && if i < old(frontier).candidates@.len() {
                        (#[trigger] final(frontier).candidates@[k]) == old(frontier).candidates@[i]
                    } else {
                        &&& final(frontier).candidates@[k].instruction@ == candidate.instruction@
                        &&& final(frontier).candidates@[k].example_scores@ == scores@
                        &&& final(frontier).candidates@[k].id == old(frontier).next_id
                        &&& final(frontier).candidates@[k].parent_id == candidate.parent_id
                    }
            }),
{
    let row = old(frontier).matrix@.rows as usize;
    let all_rows = old(frontier).rows@.push(row);
    let named = GepaView { id: old(frontier).next_id, example_scores: scores@, ..candidate@ };
    let (view, joined) = choose|view: ParetoView, joined: GEPACandidate| #[trigger]
        joined@ == named && #[trigger] view.describes(
            final(frontier).matrix@,
            matrix_columns(final(frontier).matrix@),
        ) && final(frontier).matrix@ == with_row(
            old(frontier).matrix@,
            row as int,
            scores@,
            scores@.len(),
        ) && ({
            let at = winners(view.wins@, all_rows, all_rows.len());
            let all = old(frontier).candidates@.push(joined);
            &&& final(frontier).candidates@ == Seq::new(at.len(), |i: int| all[at[i]])
            &&& final(frontier).rows@ == Seq::new(at.len(), |i: int| all_rows[at[i]])
        });
    let at = winners(view.wins@, all_rows, all_rows.len());
    let all = old(frontier).candidates@.push(joined);
    lemma_winner(view.wins@, all_rows, all_rows.len(), i);
    if view.wins_of(all_rows[i] as int) > 0 {
        let k = at.index_of(i);
        assert(final(frontier).candidates@[k] == all[i]);
        assert(final(frontier).rows@[k] == all_rows[i]);
        assert(joined.instruction@ == named.instruction);
    }
}

/// A child of a candidate has the new instruction, belongs to the same predictor and says whose
/// child it is.
pub proof fn children_say_whose_they_are(
    parent: &GEPACandidate,
    instruction: String,
    generation: usize,
    r: GEPACandidate,
)
    requires
        call_ensures(GEPACandidate::mutate, (parent, instruction, generation), r),
    ensures
        r.instruction@ == instruction@,
        r.module_name@ == parent.module_name@,
        r.parent_id == Some(parent.id),
        r.generation == generation,
        r.example_scores@.len() == 0,
{
    assert(r@.instruction == instruction@);
    assert(r@.module_name == parent.module_name@);
    assert(r@.parent_id == Some(parent.id));
    assert(r@.example_scores.len() == 0);
}

} // verus!
