//! The evaluation engine: which rollouts a batch still needs, what the budget says of them,
//! and what the finished ones change.

use std::sync::Arc;
use vstd::prelude::*;

use crate::optimizer::engine;
use crate::optimizer::engine::{Budget, Candidate, Params, RolloutCache, SlotView, Spend};
use crate::optimizer::matrix;
use crate::optimizer::matrix::{MatrixView, ParetoView, ScoreMatrix};
use crate::text;
use crate::text_laws;
use crate::trace;
use crate::trace::{Eval, LmUsage, Score, Trace};

verus! {

/// How many rollouts run at a time unless told otherwise.
pub const DEFAULT_EVAL_CONCURRENCY: usize = 16;

#[derive(Clone, Copy, Debug, PartialEq, Eq, Structural)]
pub struct EngineConfig {
    pub concurrency: usize,
    pub budget: Budget,
    pub cache_salt: u64,
}

impl Default for EngineConfig {
    fn default() -> (r: Self)
        ensures
            r.concurrency == DEFAULT_EVAL_CONCURRENCY,
            r.budget == (Budget { max_metric_calls: None, max_lm_calls: None, max_tokens: None }),
            r.cache_salt == 0,
    {
        EngineConfig {
            concurrency: DEFAULT_EVAL_CONCURRENCY,
            budget: Budget::unlimited(),
            cache_salt: 0,
        }
    }
}

/// One example of a candidate evaluation. Only a rollout that was run for it has a trace.
#[derive(Debug)]
pub struct RolloutOutcome {
    pub example: usize,
    pub eval: Eval,
    pub trace: Option<Arc<Trace>>,
}

/// The rollouts of one candidate, in the order in which they were asked for.
#[derive(Debug)]
pub struct CandidateEval {
    pub candidate: usize,
    pub rollouts: Vec<RolloutOutcome>,
}

/// The scores of the rollouts.
pub open spec fn scores_of(rollouts: Seq<RolloutOutcome>) -> Seq<Score> {
    Seq::new(rollouts.len(), |i: int| rollouts[i].eval.score)
}

impl CandidateEval {
    pub fn scores(&self) -> (r: Vec<Score>)
        ensures
            r@ == scores_of(self.rollouts@),
    {
        let mut out: Vec<Score> = Vec::new();
        let mut i: usize = 0;
        while i < self.rollouts.len()
            invariant
                i <= self.rollouts@.len(),
                out@.len() == i,
                forall|j: int| 0 <= j < i ==> out@[j] == (#[trigger] self.rollouts@[j]).eval.score,
            decreases self.rollouts@.len() - i,
        {
            out.push(self.rollouts[i].eval.score);
            i += 1;
        }
        proof {
            assert(out@ =~= scores_of(self.rollouts@));
        }
        out
    }
}

#[derive(Debug)]
pub enum EvalOutcome {
    Complete(CandidateEval),
    BudgetExhausted { needed: usize },
}

impl EvalOutcome {
    pub fn completed(self) -> (r: Option<CandidateEval>)
        ensures
            match self {
                EvalOutcome::Complete(eval) => r == Some(eval),
                EvalOutcome::BudgetExhausted { .. } => r is None,
            },
    {
        match self {
            EvalOutcome::Complete(eval) => Some(eval),
            EvalOutcome::BudgetExhausted { .. } => None,
        }
    }
}

#[derive(Debug)]
pub enum BatchEvalOutcome {
    Complete(Vec<CandidateEval>),
    BudgetExhausted { needed: usize },
}

impl BatchEvalOutcome {
    pub fn completed(self) -> (r: Option<Vec<CandidateEval>>)
        ensures
            match self {
                BatchEvalOutcome::Complete(evals) => r == Some(evals),
                BatchEvalOutcome::BudgetExhausted { .. } => r is None,
            },
    {
        match self {
            BatchEvalOutcome::Complete(evals) => Some(evals),
            BatchEvalOutcome::BudgetExhausted { .. } => None,
        }
    }
}

/// What came of evaluating a candidate on a minibatch first.
#[derive(Debug)]
pub enum GateOutcome {
    BudgetExhausted { needed: usize },
    Rejected { minibatch: CandidateEval },
    Promoted { minibatch: CandidateEval, full: CandidateEval },
}

/// What the examples of a target are to the engine: what they are evaluated on, and an
/// identity for each.
#[derive(Debug)]
pub struct Lane {
    pub baseline: u64,
    pub uids: Vec<u64>,
}

/// Why a batch cannot be evaluated.
#[derive(Debug)]
pub enum EngineError {
    NotRegistered { candidate: usize },
    ExampleOutOfRange { example: usize, num_examples: usize },
}

impl EngineError {
    pub open spec fn text(&self) -> Seq<char> {
        match self {
            EngineError::NotRegistered { candidate } => "candidate index "@ + text::decimal(
                *candidate as nat,
            ) + " is not registered"@,
            EngineError::ExampleOutOfRange { example, num_examples } => "example index "@
                + text::decimal(*example as nat) + " out of range ("@ + text::decimal(
                *num_examples as nat,
            ) + " examples)"@,
        }
    }

    pub fn message(&self) -> (r: String)
        ensures
            r@ == self.text(),
    {
        match self {
            EngineError::NotRegistered { candidate } => {
                let mut out = "candidate index ".to_owned();
                text::push_decimal(&mut out, *candidate as u64);
                out.append(" is not registered");
                out
            },
            EngineError::ExampleOutOfRange { example, num_examples } => {
                let mut out = "example index ".to_owned();
                text::push_decimal(&mut out, *example as u64);
                out.append(" out of range (");
                text::push_decimal(&mut out, *num_examples as u64);
                out.append(" examples)");
                out
            },
        }
    }
}

/// A rollout whose evaluation was cached.
#[derive(Debug)]
pub struct CachedRollout {
    pub candidate: usize,
    pub example: usize,
    pub eval: Eval,
}

/// A rollout that was run.
#[derive(Debug)]
pub struct FreshRollout {
    pub candidate: usize,
    pub example: usize,
    pub eval: Eval,
    pub trace: Arc<Trace>,
}

/// What a batch asks for, parted into what is cached and what has to be run.
#[derive(Debug)]
pub struct BatchPlan {
    pub candidates: Vec<usize>,
    pub indices: Vec<usize>,
    pub cached: Vec<CachedRollout>,
    pub pending: Vec<(usize, usize)>,
}

/// How a batch begins.
#[derive(Debug)]
pub enum BatchStep {
    /// Run the pending rollouts of the plan.
    Run(BatchPlan),
    /// The budget does not admit the rollouts that would have to be run.
    BudgetExhausted { needed: usize },
}

/// The bookkeeping of an engine.
#[derive(Debug)]
pub struct Ledger {
    pub config: EngineConfig,
    pub hashes: Vec<u64>,
    pub matrix: ScoreMatrix,
    pub cache: RolloutCache,
    pub spend: Spend,
    pub peak: usize,
}

pub open spec fn row_requests(candidate: usize, indices: Seq<usize>) -> Seq<(usize, usize)> {
    Seq::new(indices.len(), |i: int| (candidate, indices[i]))
}

/// The rollouts that a batch asks for, candidate by candidate.
pub open spec fn requests(candidates: Seq<usize>, indices: Seq<usize>) -> Seq<(usize, usize)>
    decreases candidates.len(),
{
    if candidates.len() == 0 {
        Seq::empty()
    } else {
        requests(candidates.drop_last(), indices) + row_requests(candidates.last(), indices)
    }
}

/// Which of the requests are cached and which have to be run, each once.
pub struct PlanView {
    pub cached: Seq<(usize, usize)>,
    pub pending: Seq<(usize, usize)>,
}

impl Ledger {
    pub open spec fn wf(&self) -> bool {
        &&& self.matrix.wf()
        &&& self.cache.wf()
        &&& self.matrix@.rows >= self.hashes@.len()
    }

    /// The key under which the rollout of a request is cached.
    pub open spec fn key_of(&self, lane: Lane, request: (usize, usize)) -> Seq<char> {
        engine::cache_key(
            lane.baseline,
            self.hashes@[request.0 as int],
            lane.uids@[request.1 as int],
            self.config.cache_salt,
        )
    }

    pub open spec fn hit(&self, lane: Lane, request: (usize, usize)) -> bool {
        self.cache@.dom().contains(self.key_of(lane, request))
    }

    /// The plan for the first `n` requests.
    pub open spec fn plan_of(
        &self,
        lane: Lane,
        requests: Seq<(usize, usize)>,
        n: nat,
    ) -> PlanView
        decreases n,
    {
        if n == 0 || n > requests.len() {
            PlanView { cached: Seq::empty(), pending: Seq::empty() }
        } else {
            let before = self.plan_of(lane, requests, (n - 1) as nat);
            let request = requests[n - 1];
            if before.cached.contains(request) || before.pending.contains(request) {
                before
            } else if self.hit(lane, request) {
                PlanView { cached: before.cached.push(request), pending: before.pending }
            } else {
                PlanView { cached: before.cached, pending: before.pending.push(request) }
            }
        }
    }

    /// Candidates are registered and examples exist.
    pub open spec fn in_range(&self, lane: Lane, request: (usize, usize)) -> bool {
        request.0 < self.hashes@.len() && request.1 < lane.uids@.len()
    }

    /// The plan is the one for what it asks for.
    pub open spec fn planned(&self, lane: Lane, plan: BatchPlan) -> bool {
        let asked = requests(plan.candidates@, plan.indices@);
        let view = self.plan_of(lane, asked, asked.len());
        &&& forall|k: int| 0 <= k < plan.candidates@.len() ==> #[trigger] plan.candidates@[k]
            < self.hashes@.len()
        &&& forall|k: int| 0 <= k < plan.indices@.len() ==> #[trigger] plan.indices@[k]
            < lane.uids@.len()
        &&& plan.pending@ == view.pending
        &&& plan.cached@.len() == view.cached.len()
        &&& forall|k: int|
            0 <= k < plan.cached@.len() ==> {
                &&& cached_pair(#[trigger] plan.cached@[k]) == view.cached[k]
                &&& plan.cached@[k].eval == self.cache@[self.key_of(lane, view.cached[k])]
            }
    }
}

pub open spec fn cached_pair(c: CachedRollout) -> (usize, usize) {
    (c.candidate, c.example)
}

pub open spec fn fresh_pair(f: FreshRollout) -> (usize, usize) {
    (f.candidate, f.example)
}

proof fn lemma_requests_in_range(
    l: Ledger,
    lane: Lane,
    candidates: Seq<usize>,
    indices: Seq<usize>,
)
    requires
        forall|k: int| 0 <= k < candidates.len() ==> #[trigger] candidates[k] < l.hashes@.len(),
        forall|k: int| 0 <= k < indices.len() ==> #[trigger] indices[k] < lane.uids@.len(),
    ensures
        forall|k: int|
            0 <= k < requests(candidates, indices).len() ==> l.in_range(
                lane,
                #[trigger] requests(candidates, indices)[k],
            ),
    decreases candidates.len(),
{
    if candidates.len() > 0 {
        lemma_requests_in_range(l, lane, candidates.drop_last(), indices);
        let head = requests(candidates.drop_last(), indices);
        let all = requests(candidates, indices);
        assert forall|k: int| 0 <= k < all.len() implies l.in_range(lane, #[trigger] all[k]) by {
            if k < head.len() {
                assert(all[k] == head[k]);
            } else {
                assert(all[k] == (candidates.last(), indices[k - head.len()]));
            }
        }
    }
}

/// A plan holds each request once: either as cached, or as one to be run.
pub proof fn plan_covers_every_request(
    l: Ledger,
    lane: Lane,
    asked: Seq<(usize, usize)>,
    n: nat,
)
    requires
        n <= asked.len(),
    ensures
        forall|k: int|
            0 <= k < n ==> l.plan_of(lane, asked, n).cached.contains(#[trigger] asked[k])
                || l.plan_of(lane, asked, n).pending.contains(asked[k]),
        forall|k: int|
            0 <= k < l.plan_of(lane, asked, n).cached.len() ==> asked.contains(
                #[trigger] l.plan_of(lane, asked, n).cached[k],
            ) && l.hit(lane, l.plan_of(lane, asked, n).cached[k]),
        forall|k: int|
            0 <= k < l.plan_of(lane, asked, n).pending.len() ==> asked.contains(
                #[trigger] l.plan_of(lane, asked, n).pending[k],
            ) && !l.hit(lane, l.plan_of(lane, asked, n).pending[k]),
        l.plan_of(lane, asked, n).cached.no_duplicates(),
        l.plan_of(lane, asked, n).pending.no_duplicates(),
    decreases n,
{
    if n > 0 {
        plan_covers_every_request(l, lane, asked, (n - 1) as nat);
        let before = l.plan_of(lane, asked, (n - 1) as nat);
        let now = l.plan_of(lane, asked, n);
        let request = asked[n - 1];
        assert(asked.contains(request));
        assert forall|k: int| 0 <= k < n implies now.cached.contains(#[trigger] asked[k])
            || now.pending.contains(asked[k]) by {
            if k < n - 1 {
                if before.cached.contains(asked[k]) {
                    let j = before.cached.index_of(asked[k]);
                    assert(now.cached[j] == asked[k]);
                } else {
                    let j = before.pending.index_of(asked[k]);
                    assert(now.pending[j] == asked[k]);
                }
            } else if !before.cached.contains(request) && !before.pending.contains(request) {
                if l.hit(lane, request) {
                    assert(now.cached.last() == request);
                } else {
                    assert(now.pending.last() == request);
                }
            }
        }
    }
}

/// The rollouts that were run are those that were pending, each once.
pub open spec fn answers(fresh: Seq<FreshRollout>, pending: Seq<(usize, usize)>) -> bool {
    &&& fresh.len() == pending.len()
    &&& forall|k: int| 0 <= k < fresh.len() ==> pending.contains(fresh_pair(#[trigger] fresh[k]))
    &&& forall|k: int|
        0 <= k < pending.len() ==> exists|j: int|
            0 <= j < fresh.len() && fresh_pair(#[trigger] fresh[j]) == #[trigger] pending[k]
}

/// How many calls the first `n` rollouts made.
pub open spec fn span_total(fresh: Seq<FreshRollout>, n: nat) -> nat
    decreases n,
{
    if n == 0 || n > fresh.len() {
        0
    } else {
        span_total(fresh, (n - 1) as nat) + fresh[n - 1].trace.spans@.len()
    }
}

/// Token counts with those of the first `n` rollouts added.
pub open spec fn token_total(start: LmUsage, fresh: Seq<FreshRollout>, n: nat) -> LmUsage
    decreases n,
{
    if n == 0 || n > fresh.len() {
        start
    } else {
        let spans = fresh[n - 1].trace.spans@;
        trace::usage_after(token_total(start, fresh, (n - 1) as nat), spans, spans.len())
    }
}

/// What has been spent after a batch: every rollout that was run is one metric call and one
/// model call, and a cached one is neither.
pub open spec fn spend_after(spend: Spend, fresh: Seq<FreshRollout>, cached: nat) -> Spend {
    Spend {
        metric_calls: (spend.metric_calls + fresh.len()) as usize,
        lm_calls: (spend.lm_calls + fresh.len()) as usize,
        lm_spans: (spend.lm_spans + span_total(fresh, fresh.len())) as usize,
        cache_hits: (spend.cache_hits + cached) as usize,
        tokens: token_total(spend.tokens, fresh, fresh.len()),
    }
}

/// The counters hold what the batch adds.
pub open spec fn spend_fits(spend: Spend, fresh: Seq<FreshRollout>, cached: nat) -> bool {
    &&& spend.metric_calls + fresh.len() <= usize::MAX
    &&& spend.lm_calls + fresh.len() <= usize::MAX
    &&& spend.lm_spans + span_total(fresh, fresh.len()) <= usize::MAX
    &&& spend.cache_hits + cached <= usize::MAX
}

/// The cache with the first `n` rollouts added.
pub open spec fn cache_after(l: Ledger, lane: Lane, fresh: Seq<FreshRollout>, n: nat) -> Map<
    Seq<char>,
    Eval,
>
    decreases n,
{
    if n == 0 || n > fresh.len() {
        l.cache@
    } else {
        cache_after(l, lane, fresh, (n - 1) as nat).insert(
            l.key_of(lane, fresh_pair(fresh[n - 1])),
            fresh[n - 1].eval,
        )
    }
}

/// The scores with those of the first `n` rollouts written.
pub open spec fn matrix_fresh(m: MatrixView, fresh: Seq<FreshRollout>, n: nat) -> MatrixView
    decreases n,
{
    if n == 0 || n > fresh.len() {
        m
    } else {
        let f = fresh[n - 1];
        matrix_fresh(m, fresh, (n - 1) as nat).with_score(
            f.candidate as int,
            f.example as int,
            f.eval.score,
        )
    }
}

/// The scores with those of the first `n` cached rollouts written.
pub open spec fn matrix_cached(m: MatrixView, cached: Seq<CachedRollout>, n: nat) -> MatrixView
    decreases n,
{
    if n == 0 || n > cached.len() {
        m
    } else {
        let c = cached[n - 1];
        matrix_cached(m, cached, (n - 1) as nat).with_score(
            c.candidate as int,
            c.example as int,
            c.eval.score,
        )
    }
}

/// The outcome of a request: that of its fresh rollout with the trace, or else the cached
/// evaluation without one.
pub open spec fn outcome_of(
    outcome: RolloutOutcome,
    request: (usize, usize),
    fresh: Seq<FreshRollout>,
    cached: Seq<CachedRollout>,
) -> bool {
    outcome.example == request.1 && {
        ||| exists|k: int|
            0 <= k < fresh.len() && fresh_pair(#[trigger] fresh[k]) == request && outcome.eval
                == fresh[k].eval && outcome.trace == Some(fresh[k].trace)
        ||| outcome.trace is None && (forall|k: int|
            0 <= k < fresh.len() ==> fresh_pair(#[trigger] fresh[k]) != request) && exists|k: int|
            0 <= k < cached.len() && cached_pair(#[trigger] cached[k]) == request && outcome.eval
                == cached[k].eval
    }
}

/// The evaluations of a batch, in the order in which they were asked for.
pub open spec fn evals_of(
    evals: Seq<CandidateEval>,
    plan: BatchPlan,
    fresh: Seq<FreshRollout>,
) -> bool {
    &&& evals.len() == plan.candidates@.len()
    &&& forall|i: int|
        0 <= i < evals.len() ==> {
            &&& (#[trigger] evals[i]).candidate == plan.candidates@[i]
            &&& evals[i].rollouts@.len() == plan.indices@.len()
            &&& forall|j: int|
                0 <= j < plan.indices@.len() ==> outcome_of(
                    #[trigger] evals[i].rollouts@[j],
                    (plan.candidates@[i], plan.indices@[j]),
                    fresh,
                    plan.cached@,
                )
        }
}

fn all_requests(candidates: &Vec<usize>, indices: &Vec<usize>) -> (r: Vec<(usize, usize)>)
    ensures
        r@ == requests(candidates@, indices@),
{
    let mut out: Vec<(usize, usize)> = Vec::new();
    let mut i: usize = 0;
    proof {
        assert(candidates@.take(0) =~= Seq::empty());
    }
    while i < candidates.len()
        invariant
            i <= candidates@.len(),
            out@ == requests(candidates@.take(i as int), indices@),
        decreases candidates@.len() - i,
    {
        let ghost before = out@;
        let mut j: usize = 0;
        while j < indices.len()
            invariant
                i < candidates@.len(),
                j <= indices@.len(),
                out@ == before + row_requests(candidates@[i as int], indices@).take(j as int),
            decreases indices@.len() - j,
        {
            out.push((candidates[i], indices[j]));
            j += 1;
            proof {
                let row = row_requests(candidates@[i as int], indices@);
                assert(row.take(j as int) =~= row.take(j - 1).push(row[j - 1]));
            }
        }
        proof {
            let row = row_requests(candidates@[i as int], indices@);
            assert(row.take(j as int) =~= row);
            assert(candidates@.take(i + 1).drop_last() =~= candidates@.take(i as int));
            assert(candidates@.take(i + 1).last() == candidates@[i as int]);
        }
        i += 1;
    }
    proof {
        assert(candidates@.take(i as int) =~= candidates@);
    }
    out
}

fn contains_pair(pairs: &Vec<(usize, usize)>, pair: (usize, usize)) -> (r: bool)
    ensures
        r == pairs@.contains(pair),
{
    let mut i: usize = 0;
    while i < pairs.len()
        invariant
            i <= pairs@.len(),
            forall|j: int| 0 <= j < i ==> pairs@[j] != pair,
        decreases pairs@.len() - i,
    {
        if pairs[i].0 == pair.0 && pairs[i].1 == pair.1 {
            return true;
        }
        i += 1;
    }
    false
}

fn position_in_cached(cached: &Vec<CachedRollout>, pair: (usize, usize)) -> (r: Option<usize>)
    ensures
        match r {
            Some(k) => k < cached@.len() && cached_pair(cached@[k as int]) == pair,
            None => forall|k: int|
                0 <= k < cached@.len() ==> cached_pair(#[trigger] cached@[k]) != pair,
        },
{
    let mut i: usize = 0;
    while i < cached.len()
        invariant
            i <= cached@.len(),
            forall|k: int| 0 <= k < i ==> cached_pair(#[trigger] cached@[k]) != pair,
        decreases cached@.len() - i,
    {
        if cached[i].candidate == pair.0 && cached[i].example == pair.1 {
            return Some(i);
        }
        i += 1;
    }
    None
}

fn position_in_fresh(fresh: &Vec<FreshRollout>, pair: (usize, usize)) -> (r: Option<usize>)
    ensures
        match r {
            Some(k) => k < fresh@.len() && fresh_pair(fresh@[k as int]) == pair,
            None => forall|k: int|
                0 <= k < fresh@.len() ==> fresh_pair(#[trigger] fresh@[k]) != pair,
        },
{
    let mut i: usize = 0;
    while i < fresh.len()
        invariant
            i <= fresh@.len(),
            forall|k: int| 0 <= k < i ==> fresh_pair(#[trigger] fresh@[k]) != pair,
        decreases fresh@.len() - i,
    {
        if fresh[i].candidate == pair.0 && fresh[i].example == pair.1 {
            return Some(i);
        }
        i += 1;
    }
    None
}

/// The examples `0..n`.
pub open spec fn all_examples(n: nat) -> Seq<usize> {
    Seq::new(n, |i: int| i as usize)
}

/// The examples from `from` up to `to`.
pub fn example_range(from: usize, to: usize) -> (r: Vec<usize>)
    ensures
        r@ == Seq::new(
            (if from < to {
                to - from
            } else {
                0
            }) as nat,
            |i: int| (from + i) as usize,
        ),
{
    let mut out: Vec<usize> = Vec::new();
    let mut i: usize = from;
    while i < to
        invariant
            from <= i,
            from < to ==> i <= to,
            from >= to ==> i == from,
            out@.len() == i - from,
            forall|k: int| 0 <= k < out@.len() ==> #[trigger] out@[k] == from + k,
        decreases to - i,
    {
        out.push(i);
        i += 1;
    }
    proof {
        assert(out@ =~= Seq::new(
            (if from < to {
                to - from
            } else {
                0
            }) as nat,
            |i: int| (from + i) as usize,
        ));
    }
    out
}

/// The examples that a subset names, all of them when there is none.
pub open spec fn chosen(subset: Option<Seq<usize>>, num_examples: nat) -> Seq<usize> {
    match subset {
        Some(s) => s,
        None => all_examples(num_examples),
    }
}

pub open spec fn subset_view(subset: Option<&[usize]>) -> Option<Seq<usize>> {
    match subset {
        Some(s) => Some(s@),
        None => None,
    }
}

pub fn copy_indices(s: &[usize]) -> (r: Vec<usize>)
    ensures
        r@ == s@,
{
    let mut out: Vec<usize> = Vec::new();
    let mut i: usize = 0;
    while i < s.len()
        invariant
            i <= s@.len(),
            out@ == s@.take(i as int),
        decreases s@.len() - i,
    {
        out.push(s[i]);
        i += 1;
        proof {
            assert(s@.take(i as int) =~= s@.take(i - 1).push(s@[i - 1]));
        }
    }
    proof {
        assert(s@.take(i as int) =~= s@);
    }
    out
}

/// The first index that is out of range.
pub open spec fn first_bad(s: Seq<usize>, limit: nat, n: int) -> Option<usize>
    decreases s.len() - n,
{
    if n >= s.len() || n < 0 {
        None
    } else if s[n] >= limit {
        Some(s[n])
    } else {
        first_bad(s, limit, n + 1)
    }
}

proof fn lemma_first_bad(s: Seq<usize>, limit: nat, n: int)
    requires
        0 <= n <= s.len(),
        first_bad(s, limit, n) is None,
    ensures
        forall|k: int| n <= k < s.len() ==> #[trigger] s[k] < limit,
    decreases s.len() - n,
{
    if n < s.len() {
        lemma_first_bad(s, limit, n + 1);
    }
}

fn find_bad(s: &[usize], limit: usize) -> (r: Option<usize>)
    ensures
        r == first_bad(s@, limit as nat, 0),
{
    let mut i: usize = 0;
    while i < s.len()
        invariant
            i <= s@.len(),
            first_bad(s@, limit as nat, 0) == first_bad(s@, limit as nat, i as int),
        decreases s@.len() - i,
    {
        if s[i] >= limit {
            return Some(s[i]);
        }
        i += 1;
    }
    None
}

impl Ledger {
    pub fn new(config: EngineConfig, columns: usize) -> (r: Self)
        ensures
            r.wf(),
            r.config == config,
            r.hashes@ == Seq::<u64>::empty(),
            r.matrix@ == MatrixView::empty(columns as int),
            r.cache@ == Map::<Seq<char>, Eval>::empty(),
            r.spend == (Spend {
                metric_calls: 0,
                lm_calls: 0,
                lm_spans: 0,
                cache_hits: 0,
                tokens: LmUsage::zero(),
            }),
            r.peak == 0,
    {
        Ledger {
            config,
            hashes: Vec::new(),
            matrix: ScoreMatrix::new(columns),
            cache: RolloutCache::new(),
            spend: Spend::default(),
            peak: 0,
        }
    }

    /// Whether the budget admits so many further rollouts.
    pub fn budget_allows(&self, upcoming_rollouts: usize) -> (r: bool)
        ensures
            r == self.config.budget.admits(self.spend, upcoming_rollouts),
    {
        self.config.budget.allows(&self.spend, upcoming_rollouts)
    }

    /// Adds calls that were made outside of rollouts.
    pub fn charge(&mut self, metric_calls: usize, lm_calls: usize)
        ensures
            *final(self) == (Ledger {
                spend: Spend {
                    metric_calls: engine::capped_sum(
                        old(self).spend.metric_calls,
                        metric_calls,
                    ) as usize,
                    lm_calls: engine::capped_sum(old(self).spend.lm_calls, lm_calls) as usize,
                    ..old(self).spend
                },
                ..*old(self)
            }),
    {
        self.spend.metric_calls = self.spend.metric_calls.saturating_add(metric_calls);
        self.spend.lm_calls = self.spend.lm_calls.saturating_add(lm_calls);
    }

    /// Begins a batch. Nothing changes: a batch that the budget does not admit leaves the
    /// ledger as it is.
    pub fn plan(&self, lane: &Lane, candidates: &[usize], subset: Option<&[usize]>) -> (r: Result<
        BatchStep,
        EngineError,
    >)
        requires
            self.wf(),
        ensures
            ({
                let indices = chosen(subset_view(subset), lane.uids@.len());
                let asked = requests(candidates@, indices);
                let view = self.plan_of(*lane, asked, asked.len());
                match (
                    first_bad(candidates@, self.hashes@.len(), 0),
                    first_bad(indices, lane.uids@.len(), 0),
                ) {
                    (Some(bad), _) => r == Err::<BatchStep, EngineError>(
                        EngineError::NotRegistered { candidate: bad },
                    ),
                    (None, Some(bad)) => r == Err::<BatchStep, EngineError>(
                        EngineError::ExampleOutOfRange {
                            example: bad,
                            num_examples: lane.uids@.len() as usize,
                        },
                    ),
                    (None, None) => match r {
                        Ok(BatchStep::Run(plan)) => {
                            &&& self.config.budget.admits(self.spend, view.pending.len() as usize)
                            &&& plan.candidates@ == candidates@
                            &&& plan.indices@ == indices
                            &&& self.planned(*lane, plan)
                        },
                        Ok(BatchStep::BudgetExhausted { needed }) => {
                            &&& !self.config.budget.admits(self.spend, needed)
                            &&& needed == view.pending.len()
                        },
                        Err(_) => false,
                    },
                }
            }),
    {
        let num_examples = lane.uids.len();
        match find_bad(candidates, self.hashes.len()) {
            Some(bad) => {
                return Err(EngineError::NotRegistered { candidate: bad });
            },
            None => {},
        }
        let indices = match subset {
            Some(s) => copy_indices(s),
            None => example_range(0, num_examples),
        };
        proof {
            if subset is None {
                assert(indices@ =~= all_examples(lane.uids@.len()));
            }
        }
        match find_bad(&indices, num_examples) {
            Some(bad) => {
                return Err(EngineError::ExampleOutOfRange { example: bad, num_examples });
            },
            None => {},
        }
        let wanted = copy_indices(candidates);
        let asked = all_requests(&wanted, &indices);
        proof {
            lemma_first_bad(candidates@, self.hashes@.len(), 0);
            lemma_first_bad(indices@, lane.uids@.len(), 0);
            lemma_requests_in_range(*self, *lane, candidates@, indices@);
        }
        let mut cached_pairs: Vec<(usize, usize)> = Vec::new();
        let mut cached: Vec<CachedRollout> = Vec::new();
        let mut pending: Vec<(usize, usize)> = Vec::new();
        let mut i: usize = 0;
        while i < asked.len()
            invariant
                i <= asked@.len(),
                self.wf(),
                forall|k: int| 0 <= k < asked@.len() ==> self.in_range(*lane, #[trigger] asked@[k]),
                cached_pairs@ == self.plan_of(*lane, asked@, i as nat).cached,
                pending@ == self.plan_of(*lane, asked@, i as nat).pending,
                cached@.len() == cached_pairs@.len(),
                forall|k: int|
                    0 <= k < cached@.len() ==> cached_pair(#[trigger] cached@[k])
                        == cached_pairs@[k] && cached@[k].eval == self.cache@[self.key_of(
                        *lane,
                        cached_pairs@[k],
                    )],
            decreases asked@.len() - i,
        {
            let request = asked[i];
            proof {
                assert(self.in_range(*lane, asked@[i as int]));
            }
            if !contains_pair(&cached_pairs, request) && !contains_pair(&pending, request) {
                match self.cache.get(
                    lane.baseline,
                    self.hashes[request.0],
                    lane.uids[request.1],
                    self.config.cache_salt,
                ) {
                    Some(eval) => {
                        cached_pairs.push(request);
                        cached.push(
                            CachedRollout {
                                candidate: request.0,
                                example: request.1,
                                eval: eval.clone(),
                            },
                        );
                    },
                    None => {
                        pending.push(request);
                    },
                }
            }
            i += 1;
        }
        if !self.budget_allows(pending.len()) {
            return Ok(BatchStep::BudgetExhausted { needed: pending.len() });
        }
        Ok(BatchStep::Run(BatchPlan { candidates: wanted, indices, cached, pending }))
    }

    /// Ends a batch with the rollouts that were run for it.
    #[verifier::rlimit(40)]
    pub fn commit(
        &mut self,
        lane: &Lane,
        plan: BatchPlan,
        fresh: Vec<FreshRollout>,
        batch_peak: usize,
    ) -> (r: Vec<CandidateEval>)
        requires
            old(self).wf(),
            old(self).planned(*lane, plan),
            answers(fresh@, plan.pending@),
            spend_fits(old(self).spend, fresh@, plan.cached@.len()),
        ensures
            final(self).wf(),
            final(self).config == old(self).config,
            final(self).hashes@ == old(self).hashes@,
            final(self).spend == spend_after(old(self).spend, fresh@, plan.cached@.len()),
            final(self).cache@ == cache_after(*old(self), *lane, fresh@, fresh@.len()),
            final(self).matrix@ == matrix_cached(
                matrix_fresh(old(self).matrix@, fresh@, fresh@.len()),
                plan.cached@,
                plan.cached@.len(),
            ),
            final(self).peak == matrix::larger(old(self).peak as int, batch_peak as int),
            evals_of(r@, plan, fresh@),
    {
        let ghost asked = requests(plan.candidates@, plan.indices@);
        let ghost view = self.plan_of(*lane, asked, asked.len());
        proof {
            plan_covers_every_request(*self, *lane, asked, asked.len());
            lemma_requests_in_range(*self, *lane, plan.candidates@, plan.indices@);
        }
        if batch_peak > self.peak {
            self.peak = batch_peak;
        }
        let spans = total_spans(&fresh, self.spend.lm_spans);
        let tokens = total_tokens(&fresh, self.spend.tokens);
        self.spend = Spend {
            metric_calls: self.spend.metric_calls + fresh.len(),
            lm_calls: self.spend.lm_calls + fresh.len(),
            lm_spans: spans,
            cache_hits: self.spend.cache_hits + plan.cached.len(),
            tokens,
        };
        let ghost start = *old(self);
        let mut i: usize = 0;
        while i < fresh.len()
            invariant
                i <= fresh@.len(),
                self.wf(),
                self.config == start.config,
                self.hashes@ == start.hashes@,
                self.spend == spend_after(start.spend, fresh@, plan.cached@.len()),
                self.peak == matrix::larger(start.peak as int, batch_peak as int),
                self.cache@ == cache_after(start, *lane, fresh@, i as nat),
                self.matrix@ == matrix_fresh(start.matrix@, fresh@, i as nat),
                forall|k: int|
                    0 <= k < fresh@.len() ==> start.in_range(*lane, fresh_pair(#[trigger] fresh@[k])),
            decreases fresh@.len() - i,
        {
            let candidate = fresh[i].candidate;
            let example = fresh[i].example;
            let registered = self.hashes.len();
            let examples = lane.uids.len();
            proof {
                assert(registered == start.hashes@.len() && examples == lane.uids@.len());
                assert(start.in_range(*lane, fresh_pair(fresh@[i as int])));
            }
            self.cache.insert(
                lane.baseline,
                self.hashes[candidate],
                lane.uids[example],
                self.config.cache_salt,
                fresh[i].eval.clone(),
            );
            self.matrix.record(candidate, example, fresh[i].eval.score);
            i += 1;
        }
        let ghost fresh_matrix = self.matrix@;
        let mut k: usize = 0;
        while k < plan.cached.len()
            invariant
                k <= plan.cached@.len(),
                self.wf(),
                self.config == start.config,
                self.hashes@ == start.hashes@,
                self.spend == spend_after(start.spend, fresh@, plan.cached@.len()),
                self.peak == matrix::larger(start.peak as int, batch_peak as int),
                self.cache@ == cache_after(start, *lane, fresh@, fresh@.len()),
                self.matrix@ == matrix_cached(fresh_matrix, plan.cached@, k as nat),
                forall|k: int|
                    0 <= k < plan.cached@.len() ==> start.in_range(
                        *lane,
                        cached_pair(#[trigger] plan.cached@[k]),
                    ),
            decreases plan.cached@.len() - k,
        {
            let registered = self.hashes.len();
            let examples = lane.uids.len();
            proof {
                assert(registered == start.hashes@.len() && examples == lane.uids@.len());
                assert(start.in_range(*lane, cached_pair(plan.cached@[k as int])));
            }
            self.matrix.record(
                plan.cached[k].candidate,
                plan.cached[k].example,
                plan.cached[k].eval.score,
            );
            k += 1;
        }
        assert forall|k: int| 0 <= k < asked.len() implies covered(
            #[trigger] asked[k],
            fresh@,
            plan.cached@,
        ) by {
            if view.cached.contains(asked[k]) {
                let j = view.cached.index_of(asked[k]);
                assert(cached_pair(plan.cached@[j]) == asked[k]);
            } else {
                let j = plan.pending@.index_of(asked[k]);
                assert(plan.pending@[j] == asked[k]);
            }
        }
        collect_evals(&plan, &fresh)
    }
}

/// The request was run or was cached.
spec fn covered(
    request: (usize, usize),
    fresh: Seq<FreshRollout>,
    cached: Seq<CachedRollout>,
) -> bool {
    ||| exists|k: int| 0 <= k < fresh.len() && fresh_pair(#[trigger] fresh[k]) == request
    ||| exists|k: int| 0 <= k < cached.len() && cached_pair(#[trigger] cached[k]) == request
}

proof fn lemma_request_at(candidates: Seq<usize>, indices: Seq<usize>, i: int, j: int)
    requires
        0 <= i < candidates.len(),
        0 <= j < indices.len(),
    ensures
        requests(candidates, indices).contains((candidates[i], indices[j])),
    decreases candidates.len(),
{
    let all = requests(candidates, indices);
    let head = requests(candidates.drop_last(), indices);
    if i < candidates.len() - 1 {
        lemma_request_at(candidates.drop_last(), indices, i, j);
        let k = head.index_of((candidates[i], indices[j]));
        assert(all[k] == (candidates[i], indices[j]));
    } else {
        assert(all[head.len() + j] == (candidates[i], indices[j]));
    }
}

fn collect_evals(plan: &BatchPlan, fresh: &Vec<FreshRollout>) -> (r: Vec<CandidateEval>)
    requires
        forall|k: int|
            0 <= k < requests(plan.candidates@, plan.indices@).len() ==> covered(
                #[trigger] requests(plan.candidates@, plan.indices@)[k],
                fresh@,
                plan.cached@,
            ),
    ensures
        evals_of(r@, *plan, fresh@),
{
    let ghost asked = requests(plan.candidates@, plan.indices@);
    let mut out: Vec<CandidateEval> = Vec::new();
    let mut i: usize = 0;
    while i < plan.candidates.len()
        invariant
            i <= plan.candidates@.len(),
            asked == requests(plan.candidates@, plan.indices@),
            forall|k: int|
                0 <= k < asked.len() ==> covered(#[trigger] asked[k], fresh@, plan.cached@),
            out@.len() == i,
            forall|a: int|
                0 <= a < i ==> {
                    &&& (#[trigger] out@[a]).candidate == plan.candidates@[a]
                    &&& out@[a].rollouts@.len() == plan.indices@.len()
                    &&& forall|b: int|
                        0 <= b < plan.indices@.len() ==> outcome_of(
                            #[trigger] out@[a].rollouts@[b],
                            (plan.candidates@[a], plan.indices@[b]),
                            fresh@,
                            plan.cached@,
                        )
                },
        decreases plan.candidates@.len() - i,
    {
        let candidate = plan.candidates[i];
        let mut rollouts: Vec<RolloutOutcome> = Vec::new();
        let mut j: usize = 0;
        while j < plan.indices.len()
            invariant
                i < plan.candidates@.len(),
                candidate == plan.candidates@[i as int],
                j <= plan.indices@.len(),
                asked == requests(plan.candidates@, plan.indices@),
                forall|k: int|
                    0 <= k < asked.len() ==> covered(#[trigger] asked[k], fresh@, plan.cached@),
                rollouts@.len() == j,
                forall|b: int|
                    0 <= b < j ==> outcome_of(
                        #[trigger] rollouts@[b],
                        (candidate, plan.indices@[b]),
                        fresh@,
                        plan.cached@,
                    ),
            decreases plan.indices@.len() - j,
        {
            let example = plan.indices[j];
            proof {
                lemma_request_at(plan.candidates@, plan.indices@, i as int, j as int);
                let k = asked.index_of((candidate, example));
                assert(covered(asked[k], fresh@, plan.cached@));
            }
            match position_in_fresh(fresh, (candidate, example)) {
                Some(k) => {
                    rollouts.push(
                        RolloutOutcome {
                            example,
                            eval: fresh[k].eval.clone(),
                            trace: Some(trace::share(&fresh[k].trace)),
                        },
                    );
                },
                None => {
                    match position_in_cached(&plan.cached, (candidate, example)) {
                        Some(k) => {
                            rollouts.push(
                                RolloutOutcome {
                                    example,
                                    eval: plan.cached[k].eval.clone(),
                                    trace: None,
                                },
                            );
                        },
                        None => {
                            proof {
                                assert(false);
                            }
                        },
                    }
                },
            }
            j += 1;
        }
        out.push(CandidateEval { candidate, rollouts });
        i += 1;
    }
    out
}

fn total_spans(fresh: &Vec<FreshRollout>, start: usize) -> (r: usize)
    requires
        start + span_total(fresh@, fresh@.len()) <= usize::MAX,
    ensures
        r == start + span_total(fresh@, fresh@.len()),
{
    let mut total: usize = start;
    let mut i: usize = 0;
    while i < fresh.len()
        invariant
            i <= fresh@.len(),
            start + span_total(fresh@, fresh@.len()) <= usize::MAX,
            total == start + span_total(fresh@, i as nat),
        decreases fresh@.len() - i,
    {
        proof {
            lemma_span_total_grows(fresh@, (i + 1) as nat, fresh@.len());
        }
        total += fresh[i].trace.spans.len();
        i += 1;
    }
    total
}

proof fn lemma_span_total_grows(fresh: Seq<FreshRollout>, a: nat, b: nat)
    requires
        a <= b <= fresh.len(),
    ensures
        span_total(fresh, a) <= span_total(fresh, b),
    decreases b,
{
    if a < b {
        lemma_span_total_grows(fresh, a, (b - 1) as nat);
    }
}

fn total_tokens(fresh: &Vec<FreshRollout>, start: LmUsage) -> (r: LmUsage)
    ensures
        r == token_total(start, fresh@, fresh@.len()),
{
    let mut total = start;
    let mut i: usize = 0;
    while i < fresh.len()
        invariant
            i <= fresh@.len(),
            total == token_total(start, fresh@, i as nat),
        decreases fresh@.len() - i,
    {
        total = fresh[i].trace.add_usage(total);
        i += 1;
    }
    total
}

/// A program overlay: the program it was made for, its content hash, and the number under
/// which its owner keeps it.
#[derive(Clone, Copy, Debug, PartialEq, Eq, Structural)]
pub struct Overlay {
    pub base: u64,
    pub hash: u64,
    pub id: usize,
}

/// What stands behind a candidate row.
#[derive(Debug)]
pub enum CandidatePayload {
    Params { candidate: Candidate, params: Params },
    Overlay(Overlay),
}

/// Candidates, and what is known of them.
#[derive(Debug)]
pub struct Engine {
    pub ledger: Ledger,
    pub payloads: Vec<CandidatePayload>,
}

/// The parameters are those of the candidate.
pub open spec fn params_of(candidate: Map<Seq<char>, SlotView>, params: Params) -> bool {
    &&& params.wf()
    &&& forall|n: Seq<char>| #[trigger]
        params@.dom().contains(n) <==> candidate.dom().contains(n) && candidate[n].has_content()
    &&& forall|n: Seq<char>| #[trigger]
        params@.dom().contains(n) ==> params@[n] == candidate[n].settled()
}

impl Engine {
    /// The row holds what its hash says, and no two rows of one kind have the same hash.
    pub open spec fn wf(&self) -> bool {
        &&& self.ledger.wf()
        &&& self.payloads@.len() == self.ledger.hashes@.len()
        &&& forall|i: int|
            0 <= i < self.payloads@.len() ==> match #[trigger] self.payloads@[i] {
                CandidatePayload::Params { candidate, params } => candidate.wf()
                    && self.ledger.hashes@[i] == candidate.content_hash() && params_of(
                    candidate@,
                    params,
                ),
                CandidatePayload::Overlay(overlay) => self.ledger.hashes@[i] == overlay.hash,
            }
        &&& forall|i: int, j: int|
            0 <= i < j < self.payloads@.len() && (#[trigger] self.payloads@[i] is Params) == (
            #[trigger] self.payloads@[j] is Params) ==> self.ledger.hashes@[i]
                != self.ledger.hashes@[j]
    }

    /// The row of the candidate with this hash.
    pub open spec fn is_row(&self, params: bool, hash: u64, row: int) -> bool {
        0 <= row < self.payloads@.len() && (self.payloads@[row] is Params) == params
            && self.ledger.hashes@[row] == hash
    }

    /// Only a row was added.
    pub open spec fn grown(before: Engine, after: Engine, hash: u64) -> bool {
        &&& after.payloads@.len() == before.payloads@.len() + 1
        &&& after.payloads@.drop_last() == before.payloads@
        &&& after.ledger.hashes@ == before.ledger.hashes@.push(hash)
        &&& after.ledger.matrix@ == before.ledger.matrix@.with_rows(
            after.payloads@.len() as int,
        )
        &&& after.ledger.cache == before.ledger.cache
        &&& after.ledger.config == before.ledger.config
        &&& after.ledger.spend == before.ledger.spend
        &&& after.ledger.peak == before.ledger.peak
    }

    /// What registering a candidate does: a candidate whose hash has a row keeps that row,
    /// and another one gets the next.
    pub open spec fn registers(
        before: Engine,
        after: Engine,
        content: Map<Seq<char>, SlotView>,
        hash: u64,
        row: int,
    ) -> bool {
        &&& after.wf()
        &&& after.is_row(true, hash, row)
        &&& if exists|k: int| before.is_row(true, hash, k) {
            after == before
        } else {
            &&& Engine::grown(before, after, hash)
            &&& row == before.payloads@.len()
            &&& after.payloads@[row]->candidate@ == content
        }
    }

    pub fn new(config: EngineConfig) -> (r: Self)
        ensures
            r.wf(),
            r.payloads@.len() == 0,
            r.ledger.config == config,
            r.ledger.matrix@ == MatrixView::empty(0),
            r.ledger.cache@ == Map::<Seq<char>, Eval>::empty(),
            r.ledger.spend == (Spend {
                metric_calls: 0,
                lm_calls: 0,
                lm_spans: 0,
                cache_hits: 0,
                tokens: LmUsage::zero(),
            }),
            r.ledger.peak == 0,
    {
        Engine { ledger: Ledger::new(config, 0), payloads: Vec::new() }
    }

    pub fn config(&self) -> (r: &EngineConfig)
        ensures
            *r == self.ledger.config,
    {
        &self.ledger.config
    }

    pub fn spend(&self) -> (r: &Spend)
        ensures
            *r == self.ledger.spend,
    {
        &self.ledger.spend
    }

    pub fn matrix(&self) -> (r: &ScoreMatrix)
        ensures
            *r == self.ledger.matrix,
    {
        &self.ledger.matrix
    }

    pub fn cache(&self) -> (r: &RolloutCache)
        ensures
            *r == self.ledger.cache,
    {
        &self.ledger.cache
    }

    pub fn pareto(&self) -> (r: ParetoView)
        requires
            self.wf(),
        ensures
            r.describes(
                self.ledger.matrix@,
                Seq::new(self.ledger.matrix@.columns as nat, |i: int| i as usize),
            ),
    {
        self.ledger.matrix.pareto()
    }

    pub fn pareto_over(&self, columns: &[usize]) -> (r: ParetoView)
        requires
            self.wf(),
        ensures
            r.describes(self.ledger.matrix@, columns@),
    {
        self.ledger.matrix.pareto_over(columns)
    }

    pub fn peak_candidate_concurrency(&self) -> (r: usize)
        ensures
            r == self.ledger.peak,
    {
        self.ledger.peak
    }

    fn find_row(&self, params: bool, hash: u64) -> (r: Option<usize>)
        requires
            self.wf(),
        ensures
            match r {
                Some(k) => self.is_row(params, hash, k as int),
                None => forall|k: int| !#[trigger] self.is_row(params, hash, k),
            },
    {
        let mut i: usize = 0;
        while i < self.payloads.len()
            invariant
                i <= self.payloads@.len(),
                self.wf(),
                forall|k: int| k < i ==> !#[trigger] self.is_row(params, hash, k),
            decreases self.payloads@.len() - i,
        {
            let is_params = match &self.payloads[i] {
                CandidatePayload::Params { .. } => true,
                CandidatePayload::Overlay(_) => false,
            };
            if is_params == params && self.ledger.hashes[i] == hash {
                return Some(i);
            }
            i += 1;
        }
        None
    }

    fn push_row(&mut self, hash: u64, payload: CandidatePayload)
        requires
            old(self).wf(),
            old(self).payloads@.len() < usize::MAX,
            forall|k: int| !#[trigger] old(self).is_row(payload is Params, hash, k),
            match payload {
                CandidatePayload::Params { candidate, params } => candidate.wf() && hash
                    == candidate.content_hash() && params_of(candidate@, params),
                CandidatePayload::Overlay(overlay) => hash == overlay.hash,
            },
        ensures
            final(self).wf(),
            Engine::grown(*old(self), *final(self), hash),
            final(self).payloads@.last() == payload,
    {
        let ghost before = *self;
        self.payloads.push(payload);
        self.ledger.hashes.push(hash);
        self.ledger.matrix.ensure_rows(self.payloads.len());
        proof {
            assert(self.payloads@.drop_last() =~= before.payloads@);
            assert forall|i: int, j: int|
                0 <= i < j < self.payloads@.len() && (#[trigger] self.payloads@[i] is Params) == (
                #[trigger] self.payloads@[j] is Params) implies self.ledger.hashes@[i]
                != self.ledger.hashes@[j] by {
                if j < before.payloads@.len() {
                    assert(before.payloads@[i] == self.payloads@[i]);
                    assert(before.payloads@[j] == self.payloads@[j]);
                } else {
                    assert(before.payloads@[i] == self.payloads@[i]);
                    assert(!before.is_row(payload is Params, hash, i));
                }
            }
            assert forall|i: int| 0 <= i < self.payloads@.len() implies match
                #[trigger] self.payloads@[i] {
                CandidatePayload::Params { candidate, params } => candidate.wf()
                    && self.ledger.hashes@[i] == candidate.content_hash() && params_of(
                    candidate@,
                    params,
                ),
                CandidatePayload::Overlay(overlay) => self.ledger.hashes@[i] == overlay.hash,
            } by {
                if i < before.payloads@.len() {
                    assert(before.payloads@[i] == self.payloads@[i]);
                }
            }
        }
    }

    /// The row of a candidate; one with new content gets a new row.
    pub fn register(&mut self, candidate: Candidate) -> (r: usize)
        requires
            old(self).wf(),
            candidate.wf(),
            old(self).payloads@.len() < usize::MAX,
        ensures
            Engine::registers(
                *old(self),
                *final(self),
                candidate@,
                candidate.content_hash(),
                r as int,
            ),
    {
        let hash = candidate.stable_hash();
        match self.find_row(true, hash) {
            Some(existing) => {
                proof {
                    assert(self.is_row(true, hash, existing as int));
                }
                existing
            },
            None => {
                let params = candidate.to_params();
                let row = self.payloads.len();
                self.push_row(hash, CandidatePayload::Params { candidate, params });
                row
            },
        }
    }

    /// The row of an overlay; one with new content gets a new row.
    pub fn register_overlay(&mut self, overlay: Overlay) -> (r: usize)
        requires
            old(self).wf(),
            old(self).payloads@.len() < usize::MAX,
        ensures
            final(self).wf(),
            final(self).is_row(false, overlay.hash, r as int),
            if exists|k: int| old(self).is_row(false, overlay.hash, k) {
                *final(self) == *old(self)
            } else {
                &&& Engine::grown(*old(self), *final(self), overlay.hash)
                &&& r == old(self).payloads@.len()
                &&& final(self).payloads@[r as int] == CandidatePayload::Overlay(overlay)
            },
    {
        match self.find_row(false, overlay.hash) {
            Some(existing) => {
                proof {
                    assert(self.is_row(false, overlay.hash, existing as int));
                }
                existing
            },
            None => {
                let row = self.payloads.len();
                self.push_row(overlay.hash, CandidatePayload::Overlay(overlay));
                row
            },
        }
    }

    /// The candidate of a row; an overlay is none.
    pub fn candidate(&self, index: usize) -> (r: Option<&Candidate>)
        requires
            self.wf(),
        ensures
            match r {
                Some(c) => index < self.payloads@.len() && self.payloads@[index as int] is Params
                    && self.payloads@[index as int]->candidate == *c,
                None => index >= self.payloads@.len() || self.payloads@[index as int] is Overlay,
            },
    {
        if index >= self.payloads.len() {
            return None;
        }
        match &self.payloads[index] {
            CandidatePayload::Params { candidate, .. } => Some(candidate),
            CandidatePayload::Overlay(_) => None,
        }
    }

    pub fn candidate_hash(&self, index: usize) -> (r: u64)
        requires
            self.wf(),
            index < self.payloads@.len(),
        ensures
            r == self.ledger.hashes@[index as int],
    {
        self.ledger.hashes[index]
    }

    pub fn num_candidates(&self) -> (r: usize)
        ensures
            r == self.payloads@.len(),
    {
        self.payloads.len()
    }

    pub fn budget_allows(&self, upcoming_rollouts: usize) -> (r: bool)
        ensures
            r == self.ledger.config.budget.admits(self.ledger.spend, upcoming_rollouts),
    {
        self.ledger.budget_allows(upcoming_rollouts)
    }

    /// Adds calls that were made outside of rollouts.
    pub fn charge(&mut self, metric_calls: usize, lm_calls: usize)
        requires
            old(self).wf(),
        ensures
            final(self).wf(),
            *final(self) == old(self).charged(metric_calls, lm_calls),
    {
        self.ledger.charge(metric_calls, lm_calls);
    }

    pub open spec fn charged(self, metric_calls: usize, lm_calls: usize) -> Engine {
        Engine {
            ledger: Ledger {
                spend: Spend {
                    metric_calls: engine::capped_sum(
                        self.ledger.spend.metric_calls,
                        metric_calls,
                    ) as usize,
                    lm_calls: engine::capped_sum(self.ledger.spend.lm_calls, lm_calls) as usize,
                    ..self.ledger.spend
                },
                ..self.ledger
            },
            ..self
        }
    }

    /// What beginning a batch says.
    pub open spec fn begins(
        &self,
        lane: Lane,
        candidates: Seq<usize>,
        subset: Option<Seq<usize>>,
        r: Result<BatchStep, EngineError>,
    ) -> bool {
        let indices = chosen(subset, lane.uids@.len());
        let asked = requests(candidates, indices);
        let view = self.ledger.plan_of(lane, asked, asked.len());
        match (
            first_bad(candidates, self.ledger.hashes@.len(), 0),
            first_bad(indices, lane.uids@.len(), 0),
        ) {
            (Some(bad), _) => r == Err::<BatchStep, EngineError>(
                EngineError::NotRegistered { candidate: bad },
            ),
            (None, Some(bad)) => r == Err::<BatchStep, EngineError>(
                EngineError::ExampleOutOfRange {
                    example: bad,
                    num_examples: lane.uids@.len() as usize,
                },
            ),
            (None, None) => match r {
                Ok(BatchStep::Run(plan)) => {
                    &&& self.ledger.config.budget.admits(
                        self.ledger.spend,
                        view.pending.len() as usize,
                    )
                    &&& plan.candidates@ == candidates
                    &&& plan.indices@ == indices
                    &&& self.ledger.planned(lane, plan)
                },
                Ok(BatchStep::BudgetExhausted { needed }) => {
                    &&& !self.ledger.config.budget.admits(self.ledger.spend, needed)
                    &&& needed == view.pending.len()
                },
                Err(_) => false,
            },
        }
    }

    /// Begins the evaluation of candidates on examples: all of them when there is no subset.
    /// The rollouts of the plan are run, and `commit_many` ends the batch with them.
    pub fn evaluate_many(
        &self,
        lane: &Lane,
        candidates: &[usize],
        subset: Option<&[usize]>,
    ) -> (r: Result<BatchStep, EngineError>)
        requires
            self.wf(),
        ensures
            self.begins(*lane, candidates@, subset_view(subset), r),
    {
        self.ledger.plan(lane, candidates, subset)
    }

    /// What ending a batch does.
    pub open spec fn commits(
        before: Engine,
        after: Engine,
        lane: Lane,
        plan: BatchPlan,
        fresh: Seq<FreshRollout>,
        batch_peak: usize,
    ) -> bool {
        let b = before.ledger;
        let a = after.ledger;
        &&& after.wf()
        &&& after.payloads == before.payloads
        &&& a.config == b.config
        &&& a.hashes@ == b.hashes@
        &&& a.spend == spend_after(b.spend, fresh, plan.cached@.len())
        &&& a.cache@ == cache_after(b, lane, fresh, fresh.len())
        &&& a.matrix@ == matrix_cached(
            matrix_fresh(b.matrix@, fresh, fresh.len()),
            plan.cached@,
            plan.cached@.len(),
        )
        &&& a.peak == matrix::larger(b.peak as int, batch_peak as int)
    }

    /// Ends a batch: what was run is counted, cached and scored, and every request gets its
    /// evaluation.
    pub fn commit_many(
        &mut self,
        lane: &Lane,
        plan: BatchPlan,
        fresh: Vec<FreshRollout>,
        batch_peak: usize,
    ) -> (r: Vec<CandidateEval>)
        requires
            old(self).wf(),
            old(self).ledger.planned(*lane, plan),
            answers(fresh@, plan.pending@),
            spend_fits(old(self).ledger.spend, fresh@, plan.cached@.len()),
        ensures
            Engine::commits(*old(self), *final(self), *lane, plan, fresh@, batch_peak),
            evals_of(r@, plan, fresh@),
    {
        self.ledger.commit(lane, plan, fresh, batch_peak)
    }

    /// Begins the evaluation of one candidate.
    pub fn evaluate(&self, lane: &Lane, candidate: usize, subset: Option<&[usize]>) -> (r: Result<
        BatchStep,
        EngineError,
    >)
        requires
            self.wf(),
        ensures
            self.begins(*lane, seq![candidate], subset_view(subset), r),
    {
        let mut one: Vec<usize> = Vec::new();
        one.push(candidate);
        proof {
            assert(one@ =~= seq![candidate]);
        }
        self.evaluate_many(lane, &one, subset)
    }

    /// How a gated evaluation goes on: a candidate whose mean is not above the threshold is
    /// rejected; another one is evaluated on all examples.
    pub open spec fn gates(
        &self,
        lane: Lane,
        candidate: usize,
        minibatch: CandidateEval,
        mean: i64,
        threshold: i64,
        r: Result<GateStep, EngineError>,
    ) -> bool {
        if mean <= threshold {
            r == Ok::<GateStep, EngineError>(GateStep::Done(GateOutcome::Rejected { minibatch }))
        } else {
            exists|begun: Result<BatchStep, EngineError>| #[trigger]
                self.begins(lane, seq![candidate], None, begun) && match begun {
                    Ok(BatchStep::Run(plan)) => r == Ok::<GateStep, EngineError>(
                        GateStep::RunFull { minibatch, plan },
                    ),
                    Ok(BatchStep::BudgetExhausted { needed }) => r == Ok::<GateStep, EngineError>(
                        GateStep::Done(GateOutcome::BudgetExhausted { needed }),
                    ),
                    Err(e) => r == Err::<GateStep, EngineError>(e),
                }
        }
    }

    /// Goes on with a gated evaluation once the minibatch was evaluated.
    pub fn evaluate_gated(
        &self,
        lane: &Lane,
        candidate: usize,
        minibatch: CandidateEval,
        mean: i64,
        threshold: i64,
    ) -> (r: Result<GateStep, EngineError>)
        requires
            self.wf(),
        ensures
            self.gates(*lane, candidate, minibatch, mean, threshold, r),
    {
        if mean <= threshold {
            return Ok(GateStep::Done(GateOutcome::Rejected { minibatch }));
        }
        let begun = self.evaluate(lane, candidate, None);
        let ghost seen = begun;
        proof {
            assert(self.begins(*lane, seq![candidate], None, seen));
        }
        match begun {
            Ok(BatchStep::Run(plan)) => Ok(GateStep::RunFull { minibatch, plan }),
            Ok(BatchStep::BudgetExhausted { needed }) => Ok(
                GateStep::Done(GateOutcome::BudgetExhausted { needed }),
            ),
            Err(e) => Err(e),
        }
    }
}

/// How a gated evaluation goes on after its minibatch.
#[derive(Debug)]
pub enum GateStep {
    Done(GateOutcome),
    /// Run the pending rollouts of the plan; the candidate is promoted with what they give.
    RunFull { minibatch: CandidateEval, plan: BatchPlan },
}

/// Registering the same content again changes nothing and gives the same row.
pub proof fn register_is_idempotent(
    start: Engine,
    once: Engine,
    twice: Engine,
    content: Map<Seq<char>, SlotView>,
    hash: u64,
    first: int,
    second: int,
)
    requires
        Engine::registers(start, once, content, hash, first),
        Engine::registers(once, twice, content, hash, second),
    ensures
        twice == once,
        second == first,
{
    assert(once.is_row(true, hash, first));
    if first < second {
        assert(once.payloads@[first] is Params && once.payloads@[second] is Params);
    } else if second < first {
        assert(once.payloads@[second] is Params && once.payloads@[first] is Params);
    }
}

/// Registering gives the row of a candidate with the same hash where there is one, and then
/// changes nothing; else it adds one row, which holds the candidate. The rows before stay.
pub proof fn registering_adds_at_most_one_row(
    start: Engine,
    once: Engine,
    content: Map<Seq<char>, SlotView>,
    hash: u64,
    row: int,
)
    requires
        start.wf(),
        Engine::registers(start, once, content, hash, row),
    ensures
        forall|k: int| #[trigger] start.is_row(true, hash, k) ==> once == start && row == k,
        (forall|k: int| !#[trigger] start.is_row(true, hash, k)) ==> {
            &&& row == start.payloads@.len()
            &&& once.payloads@.len() == start.payloads@.len() + 1
            &&& once.payloads@[row] is Params
            &&& once.payloads@[row]->candidate@ == content
            &&& once.ledger.hashes@[row] == hash
        },
        forall|i: int|
            0 <= i < start.payloads@.len() ==> #[trigger] once.payloads@[i] == start.payloads@[i]
                && once.ledger.hashes@[i] == start.ledger.hashes@[i],
{
    assert forall|k: int| #[trigger] start.is_row(true, hash, k) implies once == start && row
        == k by {
        if k < row {
            assert(start.payloads@[k] is Params && start.payloads@[row] is Params);
        } else if row < k {
            assert(start.payloads@[row] is Params && start.payloads@[k] is Params);
        }
    }
    assert forall|i: int| 0 <= i < start.payloads@.len() implies #[trigger] once.payloads@[i]
        == start.payloads@[i] && once.ledger.hashes@[i] == start.ledger.hashes@[i] by {
        if !(exists|k: int| start.is_row(true, hash, k)) {
            assert(once.payloads@.drop_last()[i] == start.payloads@[i]);
        }
    }
}

/// A batch that the budget admits does not take its calls over their caps, unless it needs none:
/// what was spent before may be over them already.
pub proof fn admitted_batches_keep_the_caps(l: Ledger, fresh: Seq<FreshRollout>, cached: nat)
    requires
        fresh.len() <= usize::MAX,
        l.config.budget.admits(l.spend, fresh.len() as usize),
        spend_fits(l.spend, fresh, cached),
    ensures
        ({
            let after = spend_after(l.spend, fresh, cached);
            &&& fresh.len() > 0 ==> engine::within(
                l.config.budget.max_metric_calls,
                after.metric_calls as int,
            )
            &&& fresh.len() > 0 ==> engine::within(
                l.config.budget.max_lm_calls,
                after.lm_calls as int,
            )
            &&& fresh.len() == 0 ==> after.metric_calls == l.spend.metric_calls && after.lm_calls
                == l.spend.lm_calls
        }),
{
}

/// A batch that is all cached is always admitted, and spends nothing but cache hits.
pub proof fn cached_batches_are_free(
    l: Ledger,
    lane: Lane,
    asked: Seq<(usize, usize)>,
    cached: nat,
)
    requires
        forall|k: int| 0 <= k < asked.len() ==> l.hit(lane, #[trigger] asked[k]),
        l.spend.cache_hits + cached <= usize::MAX,
    ensures
        l.plan_of(lane, asked, asked.len()).pending.len() == 0,
        l.config.budget.admits(
            l.spend,
            l.plan_of(lane, asked, asked.len()).pending.len() as usize,
        ),
        spend_after(l.spend, Seq::empty(), cached) == (Spend {
            cache_hits: (l.spend.cache_hits + cached) as usize,
            ..l.spend
        }),
{
    plan_covers_every_request(l, lane, asked, asked.len());
    let pending = l.plan_of(lane, asked, asked.len()).pending;
    if pending.len() > 0 {
        assert(asked.contains(pending[0]));
        let k = asked.index_of(pending[0]);
        assert(l.hit(lane, asked[k]));
    }
}

/// What a batch ran is cached for the next batch on the same target.
pub proof fn committed_rollouts_are_cached(
    before: Engine,
    after: Engine,
    lane: Lane,
    plan: BatchPlan,
    fresh: Seq<FreshRollout>,
    batch_peak: usize,
    k: int,
)
    requires
        Engine::commits(before, after, lane, plan, fresh, batch_peak),
        0 <= k < fresh.len(),
    ensures
        after.ledger.hit(lane, fresh_pair(fresh[k])),
{
    lemma_cache_keeps(before.ledger, lane, fresh, (k + 1) as nat, fresh.len(), k);
    assert(after.ledger.key_of(lane, fresh_pair(fresh[k])) == before.ledger.key_of(
        lane,
        fresh_pair(fresh[k]),
    ));
}

proof fn lemma_cache_keeps(
    l: Ledger,
    lane: Lane,
    fresh: Seq<FreshRollout>,
    from: nat,
    n: nat,
    k: int,
)
    requires
        0 <= k < from <= n <= fresh.len(),
        from == k + 1,
    ensures
        cache_after(l, lane, fresh, n).dom().contains(l.key_of(lane, fresh_pair(fresh[k]))),
    decreases n,
{
    if n > from {
        lemma_cache_keeps(l, lane, fresh, from, (n - 1) as nat, k);
    }
}

/// No two of the rows have one hash, and no two of the examples one identity.
pub open spec fn told_apart(
    l: Ledger,
    lane: Lane,
    candidates: Seq<usize>,
    indices: Seq<usize>,
) -> bool {
    &&& forall|i: int, j: int|
        0 <= i < candidates.len() && 0 <= j < candidates.len() && l.hashes@[(
        #[trigger] candidates[i]) as int] == l.hashes@[(#[trigger] candidates[j]) as int]
            ==> candidates[i] == candidates[j]
    &&& forall|i: int, j: int|
        0 <= i < indices.len() && 0 <= j < indices.len() && lane.uids@[(
        #[trigger] indices[i]) as int] == lane.uids@[(#[trigger] indices[j]) as int]
            ==> indices[i] == indices[j]
}

proof fn lemma_request_parts(candidates: Seq<usize>, indices: Seq<usize>, k: int)
    requires
        0 <= k < requests(candidates, indices).len(),
    ensures
        candidates.contains(requests(candidates, indices)[k].0),
        indices.contains(requests(candidates, indices)[k].1),
    decreases candidates.len(),
{
    let head = requests(candidates.drop_last(), indices);
    let all = requests(candidates, indices);
    if k < head.len() {
        lemma_request_parts(candidates.drop_last(), indices, k);
        assert(all[k] == head[k]);
        let i = candidates.drop_last().index_of(head[k].0);
        assert(candidates[i] == head[k].0);
    } else {
        assert(all[k] == row_requests(candidates.last(), indices)[k - head.len()]);
        assert(indices[k - head.len()] == all[k].1);
        assert(candidates[candidates.len() - 1] == all[k].0);
    }
}

proof fn lemma_one_key(
    l: Ledger,
    lane: Lane,
    candidates: Seq<usize>,
    indices: Seq<usize>,
    a: (usize, usize),
    b: (usize, usize),
)
    requires
        told_apart(l, lane, candidates, indices),
        requests(candidates, indices).contains(a),
        requests(candidates, indices).contains(b),
        l.key_of(lane, a) == l.key_of(lane, b),
    ensures
        a == b,
{
    let asked = requests(candidates, indices);
    lemma_request_parts(candidates, indices, asked.index_of(a));
    lemma_request_parts(candidates, indices, asked.index_of(b));
    engine::cache_key_is_injective(
        lane.baseline,
        l.hashes@[a.0 as int],
        lane.uids@[a.1 as int],
        l.config.cache_salt,
        lane.baseline,
        l.hashes@[b.0 as int],
        lane.uids@[b.1 as int],
        l.config.cache_salt,
    );
    let (ia, ib) = (candidates.index_of(a.0), candidates.index_of(b.0));
    assert(candidates[ia] == a.0 && candidates[ib] == b.0);
    let (ja, jb) = (indices.index_of(a.1), indices.index_of(b.1));
    assert(indices[ja] == a.1 && indices[jb] == b.1);
}

/// Rollouts that answer different requests are of different requests.
proof fn lemma_answers_differ(fresh: Seq<FreshRollout>, pending: Seq<(usize, usize)>)
    requires
        answers(fresh, pending),
        pending.no_duplicates(),
    ensures
        forall|i: int, j: int|
            0 <= i < fresh.len() && 0 <= j < fresh.len() && fresh_pair(#[trigger] fresh[i])
                == fresh_pair(#[trigger] fresh[j]) ==> i == j,
{
    let pairs = Seq::new(fresh.len(), |k: int| fresh_pair(fresh[k]));
    assert forall|p: (usize, usize)| pairs.to_set().contains(p) == pending.to_set().contains(
        p,
    ) by {
        if pairs.contains(p) {
            let k = pairs.index_of(p);
            assert(pending.contains(fresh_pair(fresh[k])));
        }
        if pending.contains(p) {
            let k = pending.index_of(p);
            let j = choose|j: int|
                0 <= j < fresh.len() && fresh_pair(#[trigger] fresh[j]) == pending[k];
            assert(pairs[j] == p);
        }
    }
    assert(pairs.to_set() =~= pending.to_set());
    pending.unique_seq_to_set();
    pairs.lemma_no_dup_set_cardinality();
    assert forall|i: int, j: int|
        0 <= i < fresh.len() && 0 <= j < fresh.len() && fresh_pair(#[trigger] fresh[i])
            == fresh_pair(#[trigger] fresh[j]) implies i == j by {
        assert(pairs[i] == pairs[j]);
    }
}

/// What the cache holds under a key after the first `n` rollouts: the evaluation of the only one
/// with that key, or what it held before.
proof fn lemma_cached_value(
    l: Ledger,
    lane: Lane,
    fresh: Seq<FreshRollout>,
    n: nat,
    key: Seq<char>,
)
    requires
        n <= fresh.len(),
        forall|i: int, j: int|
            0 <= i < fresh.len() && 0 <= j < fresh.len() && l.key_of(
                lane,
                fresh_pair(#[trigger] fresh[i]),
            ) == l.key_of(lane, fresh_pair(#[trigger] fresh[j])) ==> i == j,
    ensures
        forall|k: int|
            0 <= k < n && l.key_of(lane, fresh_pair(#[trigger] fresh[k])) == key ==> cache_after(
                l,
                lane,
                fresh,
                n,
            ).dom().contains(key) && cache_after(l, lane, fresh, n)[key] == fresh[k].eval,
        (forall|k: int| 0 <= k < n ==> l.key_of(lane, fresh_pair(#[trigger] fresh[k])) != key)
            ==> cache_after(l, lane, fresh, n).dom().contains(key) == l.cache@.dom().contains(key)
            && cache_after(l, lane, fresh, n)[key] == l.cache@[key],
    decreases n,
{
    if n > 0 {
        lemma_cached_value(l, lane, fresh, (n - 1) as nat, key);
        let last = l.key_of(lane, fresh_pair(fresh[n - 1]));
        assert forall|k: int|
            0 <= k < n && l.key_of(lane, fresh_pair(#[trigger] fresh[k])) == key implies cache_after(
            l,
            lane,
            fresh,
            n,
        ).dom().contains(key) && cache_after(l, lane, fresh, n)[key] == fresh[k].eval by {
            if k < n - 1 && last == key {
                assert(k == n - 1);
            }
        }
    }
}

/// After a batch every request of it is cached, with the evaluation that the batch gave.
proof fn lemma_batch_is_cached(
    before: Ledger,
    after: Ledger,
    lane: Lane,
    plan: BatchPlan,
    fresh: Seq<FreshRollout>,
    request: (usize, usize),
    outcome: RolloutOutcome,
)
    requires
        before.planned(lane, plan),
        answers(fresh, plan.pending@),
        after.config == before.config,
        after.hashes@ == before.hashes@,
        after.cache@ == cache_after(before, lane, fresh, fresh.len()),
        told_apart(before, lane, plan.candidates@, plan.indices@),
        requests(plan.candidates@, plan.indices@).contains(request),
        outcome_of(outcome, request, fresh, plan.cached@),
    ensures
        after.hit(lane, request),
        after.cache@[after.key_of(lane, request)] == outcome.eval,
{
    let asked = requests(plan.candidates@, plan.indices@);
    let view = before.plan_of(lane, asked, asked.len());
    plan_covers_every_request(before, lane, asked, asked.len());
    lemma_answers_differ(fresh, plan.pending@);
    assert forall|k: int| 0 <= k < fresh.len() implies asked.contains(
        fresh_pair(#[trigger] fresh[k]),
    ) && !before.hit(lane, fresh_pair(fresh[k])) by {
        let j = plan.pending@.index_of(fresh_pair(fresh[k]));
        assert(view.pending[j] == fresh_pair(fresh[k]));
    }
    assert forall|i: int, j: int|
        0 <= i < fresh.len() && 0 <= j < fresh.len() && before.key_of(
            lane,
            fresh_pair(#[trigger] fresh[i]),
        ) == before.key_of(lane, fresh_pair(#[trigger] fresh[j])) implies i == j by {
        lemma_one_key(
            before,
            lane,
            plan.candidates@,
            plan.indices@,
            fresh_pair(fresh[i]),
            fresh_pair(fresh[j]),
        );
    }
    let key = before.key_of(lane, request);
    lemma_cached_value(before, lane, fresh, fresh.len(), key);
    assert(after.key_of(lane, request) == key);
    if exists|k: int| 0 <= k < fresh.len() && fresh_pair(#[trigger] fresh[k]) == request {
        let k = choose|k: int|
            0 <= k < fresh.len() && fresh_pair(#[trigger] fresh[k]) == request && outcome.eval
                == fresh[k].eval;
        assert(before.key_of(lane, fresh_pair(fresh[k])) == key);
    } else {
        let k = choose|k: int|
            0 <= k < plan.cached@.len() && cached_pair(#[trigger] plan.cached@[k]) == request
                && outcome.eval == plan.cached@[k].eval;
        assert(view.cached[k] == request);
        assert forall|j: int| 0 <= j < fresh.len() implies before.key_of(
            lane,
            fresh_pair(#[trigger] fresh[j]),
        ) != key by {
            if before.key_of(lane, fresh_pair(fresh[j])) == key {
                lemma_one_key(
                    before,
                    lane,
                    plan.candidates@,
                    plan.indices@,
                    fresh_pair(fresh[j]),
                    request,
                );
            }
        }
    }
}

/// A batch that is made again at once runs nothing: it gives the same evaluations without traces,
/// and spends one cache hit for each of the different rollouts that it asks for.
pub proof fn repeated_batches_are_served_from_the_cache(
    before: Engine,
    after: Engine,
    last: Engine,
    lane: Lane,
    candidates: Seq<usize>,
    subset: Option<Seq<usize>>,
    plan: BatchPlan,
    fresh: Seq<FreshRollout>,
    first: Seq<CandidateEval>,
    again: Result<BatchStep, EngineError>,
    second: Seq<CandidateEval>,
    first_peak: usize,
    second_peak: usize,
)
    requires
        before.wf(),
        before.begins(lane, candidates, subset, Ok(BatchStep::Run(plan))),
        answers(fresh, plan.pending@),
        Engine::commits(before, after, lane, plan, fresh, first_peak),
        evals_of(first, plan, fresh),
        told_apart(before.ledger, lane, plan.candidates@, plan.indices@),
        after.begins(lane, candidates, subset, again),
        again matches Ok(BatchStep::Run(p)) ==> evals_of(second, p, Seq::empty())
            && Engine::commits(after, last, lane, p, Seq::empty(), second_peak),
        after.ledger.spend.cache_hits + requests(
            plan.candidates@,
            plan.indices@,
        ).to_set().len() <= usize::MAX,
    ensures
        again matches Ok(BatchStep::Run(p)) && p.pending@.len() == 0,
        second.len() == first.len(),
        forall|i: int|
            0 <= i < first.len() ==> {
                &&& (#[trigger] second[i]).candidate == first[i].candidate
                &&& second[i].rollouts@.len() == first[i].rollouts@.len()
                &&& forall|j: int|
                    0 <= j < first[i].rollouts@.len() ==> {
                        &&& (#[trigger] second[i].rollouts@[j]).example
                            == first[i].rollouts@[j].example
                        &&& second[i].rollouts@[j].eval == first[i].rollouts@[j].eval
                        &&& second[i].rollouts@[j].trace is None
                    }
            },
        last.ledger.spend == (Spend {
            cache_hits: (after.ledger.spend.cache_hits + requests(
                plan.candidates@,
                plan.indices@,
            ).to_set().len()) as usize,
            ..after.ledger.spend
        }),
{
    let asked = requests(plan.candidates@, plan.indices@);
    let b = before.ledger;
    let a = after.ledger;
    assert forall|k: int| 0 <= k < asked.len() implies a.hit(lane, #[trigger] asked[k]) by {
        lemma_hit_after(b, a, lane, plan, fresh, asked[k]);
    }
    let view = a.plan_of(lane, asked, asked.len());
    plan_covers_every_request(a, lane, asked, asked.len());
    cached_batches_are_free(a, lane, asked, 0);
    assert(view.cached.to_set() =~= asked.to_set()) by {
        assert forall|p: (usize, usize)| asked.contains(p) implies view.cached.contains(p) by {
            let k = asked.index_of(p);
            assert(view.cached.contains(asked[k]) || view.pending.contains(asked[k]));
        }
        assert forall|p: (usize, usize)| view.cached.contains(p) implies asked.contains(p) by {
            let k = view.cached.index_of(p);
            assert(asked.contains(view.cached[k]));
        }
    }
    view.cached.unique_seq_to_set();
    match again {
        Ok(BatchStep::Run(p)) => {
            cached_batches_are_free(a, lane, asked, p.cached@.len());
            assert forall|i: int, j: int|
                0 <= i < first.len() && 0 <= j < plan.indices@.len() implies {
                &&& (#[trigger] second[i].rollouts@[j]).example == first[i].rollouts@[j].example
                &&& second[i].rollouts@[j].eval == first[i].rollouts@[j].eval
                &&& second[i].rollouts@[j].trace is None
            } by {
                let request = (plan.candidates@[i], plan.indices@[j]);
                lemma_request_at(plan.candidates@, plan.indices@, i, j);
                let one = first[i].rollouts@[j];
                let two = second[i].rollouts@[j];
                assert(outcome_of(one, request, fresh, plan.cached@));
                assert(outcome_of(two, request, Seq::empty(), p.cached@));
                lemma_batch_is_cached(b, a, lane, plan, fresh, request, one);
                let k = choose|k: int|
                    0 <= k < p.cached@.len() && cached_pair(#[trigger] p.cached@[k]) == request
                        && two.eval == p.cached@[k].eval;
                assert(view.cached[k] == request);
            }
        },
        Ok(BatchStep::BudgetExhausted { needed }) => {},
        Err(_) => {},
    }
}

/// After a batch every request of it is cached.
proof fn lemma_hit_after(
    before: Ledger,
    after: Ledger,
    lane: Lane,
    plan: BatchPlan,
    fresh: Seq<FreshRollout>,
    request: (usize, usize),
)
    requires
        before.planned(lane, plan),
        answers(fresh, plan.pending@),
        after.config == before.config,
        after.hashes@ == before.hashes@,
        after.cache@ == cache_after(before, lane, fresh, fresh.len()),
        requests(plan.candidates@, plan.indices@).contains(request),
    ensures
        after.hit(lane, request),
{
    let asked = requests(plan.candidates@, plan.indices@);
    let view = before.plan_of(lane, asked, asked.len());
    plan_covers_every_request(before, lane, asked, asked.len());
    let at = asked.index_of(request);
    assert(view.cached.contains(asked[at]) || view.pending.contains(asked[at]));
    assert(after.key_of(lane, request) == before.key_of(lane, request));
    if view.pending.contains(request) {
        let k = plan.pending@.index_of(request);
        let j = choose|j: int|
            0 <= j < fresh.len() && fresh_pair(#[trigger] fresh[j]) == plan.pending@[k];
        lemma_cache_keeps(before, lane, fresh, (j + 1) as nat, fresh.len(), j);
    } else {
        let k = view.cached.index_of(request);
        assert(before.hit(lane, view.cached[k]));
        lemma_cache_grows(before, lane, fresh, fresh.len(), before.key_of(lane, request));
    }
}

proof fn lemma_cache_grows(
    l: Ledger,
    lane: Lane,
    fresh: Seq<FreshRollout>,
    n: nat,
    key: Seq<char>,
)
    requires
        l.cache@.dom().contains(key),
    ensures
        cache_after(l, lane, fresh, n).dom().contains(key),
    decreases n,
{
    if n > 0 && n <= fresh.len() {
        lemma_cache_grows(l, lane, fresh, (n - 1) as nat, key);
    }
}

/// How many rollouts of each candidate are running, and how many candidates ran at once at
/// most.
#[derive(Debug)]
pub struct Gauge {
    pub in_flight: Vec<(usize, usize)>,
    pub highest: usize,
}

impl Gauge {
    /// Each candidate is listed once, with a count above zero, and the peak was reached.
    pub open spec fn wf(&self) -> bool {
        &&& forall|i: int, j: int|
            0 <= i < j < self.in_flight@.len() ==> (#[trigger] self.in_flight@[i]).0 != (
            #[trigger] self.in_flight@[j]).0
        &&& forall|i: int| 0 <= i < self.in_flight@.len() ==> (#[trigger] self.in_flight@[i]).1 > 0
        &&& self.in_flight@.len() <= self.highest
    }

    pub open spec fn is_at(&self, candidate: usize, i: int) -> bool {
        0 <= i < self.in_flight@.len() && self.in_flight@[i].0 == candidate
    }

    /// How many rollouts of the candidate are running.
    pub open spec fn running(&self, candidate: usize) -> nat {
        if exists|i: int| self.is_at(candidate, i) {
            self.in_flight@[choose|i: int| self.is_at(candidate, i)].1 as nat
        } else {
            0
        }
    }

    pub fn new() -> (r: Self)
        ensures
            r.wf(),
            r.in_flight@.len() == 0,
            r.highest == 0,
            forall|c: usize| #[trigger] r.running(c) == 0,
    {
        Gauge { in_flight: Vec::new(), highest: 0 }
    }

    fn position(&self, candidate: usize) -> (r: Option<usize>)
        ensures
            match r {
                Some(i) => self.is_at(candidate, i as int),
                None => forall|i: int| !#[trigger] self.is_at(candidate, i),
            },
    {
        let mut i: usize = 0;
        while i < self.in_flight.len()
            invariant
                i <= self.in_flight@.len(),
                forall|k: int| k < i ==> !#[trigger] self.is_at(candidate, k),
            decreases self.in_flight@.len() - i,
        {
            if self.in_flight[i].0 == candidate {
                return Some(i);
            }
            i += 1;
        }
        None
    }

    proof fn lemma_running(&self, candidate: usize, i: int)
        requires
            self.wf(),
            self.is_at(candidate, i),
        ensures
            self.running(candidate) == self.in_flight@[i].1,
    {
        let k = choose|k: int| self.is_at(candidate, k);
        if k < i {
            assert(self.in_flight@[k].0 != self.in_flight@[i].0);
        } else if i < k {
            assert(self.in_flight@[i].0 != self.in_flight@[k].0);
        }
    }

    /// A rollout of the candidate starts.
    pub fn enter(&mut self, candidate: usize)
        requires
            old(self).wf(),
            old(self).running(candidate) < usize::MAX,
            old(self).in_flight@.len() < usize::MAX,
        ensures
            final(self).wf(),
            forall|c: usize| #[trigger]
                final(self).running(c) == old(self).running(c) + (if c == candidate {
                    1int
                } else {
                    0int
                }),
            final(self).highest == matrix::larger(
                old(self).highest as int,
                final(self).in_flight@.len() as int,
            ),
    {
        let ghost before = *self;
        let found = self.position(candidate);
        match found {
            Some(i) => {
                proof {
                    before.lemma_running(candidate, i as int);
                }
                let count = self.in_flight[i].1;
                self.in_flight.set(i, (candidate, count + 1));
            },
            None => {
                proof {
                    assert forall|k: int| 0 <= k < before.in_flight@.len() implies (
                    #[trigger] before.in_flight@[k]).0 != candidate by {
                        assert(!before.is_at(candidate, k));
                    }
                }
                self.in_flight.push((candidate, 1));
            },
        }
        if self.in_flight.len() > self.highest {
            self.highest = self.in_flight.len();
        }
        proof {
            assert(self.wf());
            assert forall|c: usize| #[trigger] self.running(c) == before.running(c) + (if c
                == candidate {
                1int
            } else {
                0int
            }) by {
                if exists|k: int| before.is_at(c, k) {
                    let k = choose|k: int| before.is_at(c, k);
                    assert(self.is_at(c, k));
                    self.lemma_running(c, k);
                    before.lemma_running(c, k);
                    if c == candidate {
                        let i = found->0 as int;
                        assert(before.is_at(c, i));
                        if i < k {
                            assert(before.in_flight@[i].0 != before.in_flight@[k].0);
                        } else if k < i {
                            assert(before.in_flight@[k].0 != before.in_flight@[i].0);
                        }
                    }
                } else if c == candidate {
                    let last = self.in_flight@.len() - 1;
                    assert(found is None) by {
                        if found is Some {
                            assert(before.is_at(c, found->0 as int));
                        }
                    }
                    assert(self.is_at(c, last));
                    self.lemma_running(c, last);
                } else {
                    assert forall|k: int| !#[trigger] self.is_at(c, k) by {
                        if self.is_at(c, k) {
                            assert(before.is_at(c, k));
                        }
                    }
                }
            }
        }
    }

    /// A rollout of the candidate ends.
    pub fn leave(&mut self, candidate: usize)
        requires
            old(self).wf(),
        ensures
            final(self).wf(),
            final(self).highest == old(self).highest,
            forall|c: usize| #[trigger]
                final(self).running(c) == (if c == candidate && old(self).running(c) > 0 {
                    (old(self).running(c) - 1) as nat
                } else {
                    old(self).running(c)
                }),
    {
        let ghost before = *self;
        match self.position(candidate) {
            Some(i) => {
                proof {
                    before.lemma_running(candidate, i as int);
                }
                let count = self.in_flight[i].1;
                if count == 1 {
                    self.in_flight.remove(i);
                    proof {
                        assert forall|c: usize, k: int| self.is_at(c, k) implies before.is_at(
                            c,
                            if k < i {
                                k
                            } else {
                                k + 1
                            },
                        ) by {}
                        assert forall|c: usize, k: int| before.is_at(c, k) && k != i implies self.is_at(
                            c,
                            if k < i {
                                k
                            } else {
                                k - 1
                            },
                        ) by {}
                    }
                } else {
                    self.in_flight.set(i, (candidate, (count - 1) as usize));
                    proof {
                        assert forall|c: usize, k: int| self.is_at(c, k) == before.is_at(c, k) by {}
                    }
                }
                proof {
                    assert(self.wf());
                    assert forall|c: usize| #[trigger] self.running(c) == (if c == candidate
                        && before.running(c) > 0 {
                        (before.running(c) - 1) as nat
                    } else {
                        before.running(c)
                    }) by {
                        if exists|k: int| self.is_at(c, k) {
                            let k = choose|k: int| self.is_at(c, k);
                            self.lemma_running(c, k);
                            if count == 1 {
                                let b = if k < i { k } else { k + 1 };
                                assert(before.is_at(c, b));
                                before.lemma_running(c, b);
                                if c == candidate {
                                    assert(before.in_flight@[i as int].0 == before.in_flight@[b].0);
                                    if i < b {
                                    } else if b < i {
                                    }
                                }
                            } else {
                                assert(before.is_at(c, k));
                                before.lemma_running(c, k);
                                if c == candidate && k != i {
                                    if i < k {
                                        assert(before.in_flight@[i as int].0
                                            != before.in_flight@[k].0);
                                    } else {
                                        assert(before.in_flight@[k].0
                                            != before.in_flight@[i as int].0);
                                    }
                                }
                            }
                        } else if exists|k: int| before.is_at(c, k) {
                            let k = choose|k: int| before.is_at(c, k);
                            before.lemma_running(c, k);
                            if k != i {
                                assert(self.is_at(c, if k < i { k } else { k - 1 }) || self.is_at(
                                    c,
                                    k,
                                ));
                            }
                        }
                    }
                }
            },
            None => {
                proof {
                    assert(before.running(candidate) == 0);
                }
            },
        }
    }

    pub fn peak(&self) -> (r: usize)
        ensures
            r == self.highest,
    {
        self.highest
    }
}

proof fn lemma_fresh_score(m: MatrixView, fresh: Seq<FreshRollout>, n: nat, k: int)
    requires
        0 <= k < n <= fresh.len(),
        forall|j: int| k < j < n ==> fresh_pair(#[trigger] fresh[j]) != fresh_pair(fresh[k]),
    ensures
        matrix_fresh(m, fresh, n).at(fresh[k].candidate as int, fresh[k].example as int) == Some(
            fresh[k].eval.score,
        ),
    decreases n,
{
    if k < n - 1 {
        lemma_fresh_score(m, fresh, (n - 1) as nat, k);
        assert(fresh_pair(fresh[n - 1]) != fresh_pair(fresh[k]));
    }
}

proof fn lemma_cached_score_apart(
    m: MatrixView,
    cached: Seq<CachedRollout>,
    n: nat,
    row: int,
    column: int,
)
    requires
        n <= cached.len(),
        forall|j: int|
            0 <= j < n ==> !((#[trigger] cached[j]).candidate == row && cached[j].example
                == column),
    ensures
        matrix_cached(m, cached, n).at(row, column) == m.at(row, column),
    decreases n,
{
    if n > 0 {
        lemma_cached_score_apart(m, cached, (n - 1) as nat, row, column);
        assert(!(cached[n - 1].candidate == row && cached[n - 1].example == column));
    }
}

proof fn lemma_cache_value(l: Ledger, lane: Lane, fresh: Seq<FreshRollout>, n: nat, k: int)
    requires
        0 <= k < n <= fresh.len(),
        forall|j: int|
            k < j < n ==> l.key_of(lane, fresh_pair(#[trigger] fresh[j])) != l.key_of(
                lane,
                fresh_pair(fresh[k]),
            ),
    ensures
        cache_after(l, lane, fresh, n).dom().contains(l.key_of(lane, fresh_pair(fresh[k]))),
        cache_after(l, lane, fresh, n)[l.key_of(lane, fresh_pair(fresh[k]))] == fresh[k].eval,
    decreases n,
{
    if k < n - 1 {
        lemma_cache_value(l, lane, fresh, (n - 1) as nat, k);
        assert(l.key_of(lane, fresh_pair(fresh[n - 1])) != l.key_of(lane, fresh_pair(fresh[k])));
    }
}

/// When a batch ends, every candidate that was asked for has a rollout for every example that was
/// asked for, in that order: what ran for it, with its trace, or what was cached.
pub proof fn every_request_gets_its_own_outcome(
    engine: &mut Engine,
    lane: &Lane,
    plan: BatchPlan,
    fresh: Vec<FreshRollout>,
    batch_peak: usize,
    r: Vec<CandidateEval>,
    i: int,
    j: int,
    k: int,
)
    requires
        old(engine).wf(),
        old(engine).ledger.planned(*lane, plan),
        answers(fresh@, plan.pending@),
        call_ensures(Engine::commit_many, (engine, lane, plan, fresh, batch_peak), r),
        0 <= i < plan.candidates@.len(),
        0 <= j < plan.indices@.len(),
    ensures
        r@.len() == plan.candidates@.len(),
        r@[i].candidate == plan.candidates@[i],
        r@[i].rollouts@.len() == plan.indices@.len(),
        r@[i].rollouts@[j].example == plan.indices@[j],
        0 <= k < fresh@.len() && fresh@[k].candidate == plan.candidates@[i] && fresh@[k].example
            == plan.indices@[j] && (forall|x: int|
            0 <= x < fresh@.len() && x != k ==> fresh_pair(#[trigger] fresh@[x]) != fresh_pair(
                fresh@[k],
            )) ==> r@[i].rollouts@[j].eval == fresh@[k].eval && r@[i].rollouts@[j].trace == Some(
            fresh@[k].trace,
        ),
        (forall|x: int|
            0 <= x < fresh@.len() ==> fresh_pair(#[trigger] fresh@[x]) != (
                plan.candidates@[i],
                plan.indices@[j],
            )) ==> r@[i].rollouts@[j].trace is None && exists|x: int|
            0 <= x < plan.cached@.len() && (#[trigger] plan.cached@[x]).candidate
                == plan.candidates@[i] && plan.cached@[x].example == plan.indices@[j]
                && r@[i].rollouts@[j].eval == plan.cached@[x].eval,
{
    assert(r@[i].candidate == plan.candidates@[i]);
    let request = (plan.candidates@[i], plan.indices@[j]);
    assert(outcome_of(r@[i].rollouts@[j], request, fresh@, plan.cached@));
    if forall|x: int| 0 <= x < fresh@.len() ==> fresh_pair(#[trigger] fresh@[x]) != request {
        let x = choose|x: int|
            0 <= x < plan.cached@.len() && cached_pair(#[trigger] plan.cached@[x]) == request
                && r@[i].rollouts@[j].eval == plan.cached@[x].eval;
        assert(plan.cached@[x].candidate == request.0);
    }
}

/// What ran is paid for and what was cached is not: each rollout that ran is one metric call and
/// one model call. Its score is on record, and its evaluation is cached.
pub proof fn what_ran_is_paid_and_kept(
    engine: &mut Engine,
    lane: &Lane,
    plan: BatchPlan,
    fresh: Vec<FreshRollout>,
    batch_peak: usize,
    r: Vec<CandidateEval>,
    k: int,
)
    requires
        old(engine).wf(),
        old(engine).ledger.planned(*lane, plan),
        answers(fresh@, plan.pending@),
        spend_fits(old(engine).ledger.spend, fresh@, plan.cached@.len()),
        call_ensures(Engine::commit_many, (engine, lane, plan, fresh, batch_peak), r),
    ensures
        final(engine).ledger.spend.metric_calls == old(engine).ledger.spend.metric_calls
            + fresh@.len(),
        final(engine).ledger.spend.lm_calls == old(engine).ledger.spend.lm_calls + fresh@.len(),
        final(engine).ledger.spend.cache_hits == old(engine).ledger.spend.cache_hits
            + plan.cached@.len(),
        fresh@.len() == plan.pending@.len(),
        0 <= k < fresh@.len() && (forall|x: int|
            k < x < fresh@.len() ==> fresh_pair(#[trigger] fresh@[x]) != fresh_pair(fresh@[k]))
            && (forall|x: int|
            0 <= x < plan.cached@.len() ==> cached_pair(#[trigger] plan.cached@[x]) != fresh_pair(
                fresh@[k],
            )) ==> final(engine).ledger.matrix@.at(
            fresh@[k].candidate as int,
            fresh@[k].example as int,
        ) == Some(fresh@[k].eval.score),
        0 <= k < fresh@.len() && (forall|x: int|
            k < x < fresh@.len() ==> old(engine).ledger.key_of(
                *lane,
                fresh_pair(#[trigger] fresh@[x]),
            ) != old(engine).ledger.key_of(*lane, fresh_pair(fresh@[k]))) ==> final(engine).ledger.cache@.dom().contains(old(engine).ledger.key_of(*lane, fresh_pair(fresh@[k])))
            && final(engine).ledger.cache@[old(engine).ledger.key_of(
            *lane,
            fresh_pair(fresh@[k]),
        )] == fresh@[k].eval,
        final(engine).payloads == old(engine).payloads,
{
    if 0 <= k < fresh@.len() {
        let row = fresh@[k].candidate as int;
        let column = fresh@[k].example as int;
        if (forall|x: int|
            k < x < fresh@.len() ==> fresh_pair(#[trigger] fresh@[x]) != fresh_pair(fresh@[k]))
            && (forall|x: int|
            0 <= x < plan.cached@.len() ==> cached_pair(#[trigger] plan.cached@[x]) != fresh_pair(
                fresh@[k],
            )) {
            lemma_fresh_score(old(engine).ledger.matrix@, fresh@, fresh@.len(), k);
            assert forall|x: int| 0 <= x < plan.cached@.len() implies !((
            #[trigger] plan.cached@[x]).candidate == row && plan.cached@[x].example == column) by {
                assert(cached_pair(plan.cached@[x]) != fresh_pair(fresh@[k]));
            }
            lemma_cached_score_apart(
                matrix_fresh(old(engine).ledger.matrix@, fresh@, fresh@.len()),
                plan.cached@,
                plan.cached@.len(),
                row,
                column,
            );
        }
        if forall|x: int|
            k < x < fresh@.len() ==> old(engine).ledger.key_of(
                *lane,
                fresh_pair(#[trigger] fresh@[x]),
            ) != old(engine).ledger.key_of(*lane, fresh_pair(fresh@[k])) {
            lemma_cache_value(old(engine).ledger, *lane, fresh@, fresh@.len(), k);
        }
    }
}

/// A candidate goes on exactly where its mean on the minibatch is above the threshold: it is then
/// evaluated on all examples, and else nothing more is run for it.
pub proof fn candidates_go_on_above_the_threshold(
    engine: &Engine,
    lane: &Lane,
    candidate: usize,
    minibatch: CandidateEval,
    mean: i64,
    threshold: i64,
    r: Result<GateStep, EngineError>,
    e: int,
)
    requires
        engine.wf(),
        call_ensures(
            Engine::evaluate_gated,
            (engine, lane, candidate, minibatch, mean, threshold),
            r,
        ),
    ensures
        mean <= threshold <==> r matches Ok(GateStep::Done(GateOutcome::Rejected { .. })),
        mean <= threshold ==> r->Ok_0->Done_0->Rejected_minibatch == minibatch,
        r matches Ok(GateStep::RunFull { minibatch: m, plan }) ==> m == minibatch
            && plan.candidates@ == seq![candidate] && plan.indices@.len() == lane.uids@.len() && (
        0 <= e < lane.uids@.len() ==> plan.indices@[e] == e),
{
    assert(lane.uids.len() == lane.uids@.len());
}

/// The scores of an evaluation are those of its rollouts, in order.
pub proof fn scores_are_those_of_the_rollouts(eval: &CandidateEval, r: Vec<Score>, i: int)
    requires
        call_ensures(CandidateEval::scores, (eval,), r),
    ensures
        r@.len() == eval.rollouts@.len(),
        0 <= i < r@.len() ==> r@[i] == eval.rollouts@[i].eval.score,
{
}

proof fn lemma_is_requested(candidates: Seq<usize>, indices: Seq<usize>, i: int, j: int)
    requires
        0 <= i < candidates.len(),
        0 <= j < indices.len(),
    ensures
        requests(candidates, indices).contains((candidates[i], indices[j])),
    decreases candidates.len(),
{
    let head = requests(candidates.drop_last(), indices);
    let all = requests(candidates, indices);
    if i == candidates.len() - 1 {
        assert(all[head.len() + j] == (candidates[i], indices[j]));
    } else {
        lemma_is_requested(candidates.drop_last(), indices, i, j);
        let k = head.index_of((candidates[i], indices[j]));
        assert(all[k] == head[k]);
    }
}

/// A batch that runs holds every candidate with every example that was asked for, each as one to be
/// run or as what is cached for it; and nothing that is cached is run.
pub proof fn batches_hold_every_request(
    engine: &Engine,
    lane: &Lane,
    candidates: &[usize],
    subset: Option<&[usize]>,
    plan: BatchPlan,
    i: int,
    j: int,
    k: int,
)
    requires
        engine.wf(),
        call_ensures(
            Engine::evaluate_many,
            (engine, lane, candidates, subset),
            Ok::<BatchStep, EngineError>(BatchStep::Run(plan)),
        ),
    ensures
        plan.candidates@ == candidates@,
        subset matches Some(s) ==> plan.indices@ == s@,
        subset is None ==> plan.indices@.len() == lane.uids@.len() && forall|e: int|
            0 <= e < plan.indices@.len() ==> #[trigger] plan.indices@[e] == e,
        0 <= i < plan.candidates@.len() && 0 <= j < plan.indices@.len() ==> plan.pending@.contains(
            (plan.candidates@[i], plan.indices@[j]),
        ) || exists|c: int|
            0 <= c < plan.cached@.len() && (#[trigger] plan.cached@[c]).candidate
                == plan.candidates@[i] && plan.cached@[c].example == plan.indices@[j],
        0 <= k < plan.cached@.len() ==> plan.cached@[k].eval
            == engine.ledger.cache@[engine.ledger.key_of(*lane, cached_pair(plan.cached@[k]))],
        0 <= k < plan.pending@.len() ==> !engine.ledger.cache@.dom().contains(
            engine.ledger.key_of(*lane, plan.pending@[k]),
        ),
{
    assert(lane.uids.len() == lane.uids@.len());
    let asked = requests(plan.candidates@, plan.indices@);
    let view = engine.ledger.plan_of(*lane, asked, asked.len());
    plan_covers_every_request(engine.ledger, *lane, asked, asked.len());
    if 0 <= i < plan.candidates@.len() && 0 <= j < plan.indices@.len() {
        lemma_is_requested(plan.candidates@, plan.indices@, i, j);
        let request = (plan.candidates@[i], plan.indices@[j]);
        let at = asked.index_of(request);
        assert(asked[at] == request);
        if view.cached.contains(request) {
            let c = view.cached.index_of(request);
            assert(cached_pair(plan.cached@[c]) == request);
        }
    }
    if 0 <= k < plan.pending@.len() {
        assert(!engine.ledger.hit(*lane, view.pending[k]));
    }
    if 0 <= k < plan.cached@.len() {
        assert(cached_pair(plan.cached@[k]) == view.cached[k]);
    }
}

/// A new candidate is read back from the row that it was given, and every other row is what it was.
pub proof fn registered_candidates_are_read_back(
    engine: &mut Engine,
    candidate: Candidate,
    row: usize,
    index: usize,
    found: Option<&Candidate>,
)
    requires
        old(engine).wf(),
        candidate.wf(),
        call_ensures(Engine::register, (engine, candidate), row),
        call_ensures(Engine::candidate, (final(engine), index), found),
    ensures
        row < final(engine).payloads@.len(),
        final(engine).payloads@.len() >= old(engine).payloads@.len(),
        final(engine).payloads@.len() > old(engine).payloads@.len() && index == row ==> (
        found matches Some(c) && c@ == candidate@),
        index < old(engine).payloads@.len() && old(engine).payloads@[index as int] is Params ==> (
        found matches Some(c) && *c == old(engine).payloads@[index as int]->candidate),
{
    if final(engine).payloads@.len() > old(engine).payloads@.len() {
        let all = final(engine).payloads@;
        if index < old(engine).payloads@.len() {
            assert(all.drop_last()[index as int] == all[index as int]);
        }
    }
}

/// A request that was refused is named: the candidate, or the example with how many there are.
pub proof fn refused_requests_are_named(e: &EngineError, r: String)
    requires
        call_ensures(EngineError::message, (e,), r),
    ensures
        *e matches EngineError::NotRegistered { candidate } ==> text::has_text(
            r@,
            text::decimal(candidate as nat),
        ),
        *e matches EngineError::ExampleOutOfRange { example, num_examples } ==> text::has_text(
            r@,
            text::decimal(example as nat) + " out of range ("@ + text::decimal(num_examples as nat),
        ),
{
    match *e {
        EngineError::NotRegistered { candidate } => {
            text_laws::lemma_inside(
                "candidate index "@,
                text::decimal(candidate as nat),
                " is not registered"@,
            );
        },
        EngineError::ExampleOutOfRange { example, num_examples } => {
            let head = "example index "@;
            let a = text::decimal(example as nat);
            let b = " out of range ("@;
            let c = text::decimal(num_examples as nat);
            let d = " examples)"@;
            text_laws::lemma_grouped(head, a, b);
            text_laws::lemma_grouped(head, a + b, c);
            text_laws::lemma_inside(head, a + b + c, d);
        },
    }
}

/// A rollout is cached for its own program, candidate and example, and for the salt of its run: two
/// rollouts share what is cached only where all of these are the same.
pub proof fn cached_rollouts_are_not_mixed_up(
    l: Ledger,
    lane: Lane,
    a: (usize, usize),
    other: Ledger,
    other_lane: Lane,
    b: (usize, usize),
)
    requires
        l.key_of(lane, a) == other.key_of(other_lane, b),
    ensures
        lane.baseline == other_lane.baseline,
        l.hashes@[a.0 as int] == other.hashes@[b.0 as int],
        lane.uids@[a.1 as int] == other_lane.uids@[b.1 as int],
        l.config.cache_salt == other.config.cache_salt,
{
    engine::cache_key_is_injective(
        lane.baseline,
        l.hashes@[a.0 as int],
        lane.uids@[a.1 as int],
        l.config.cache_salt,
        other_lane.baseline,
        other.hashes@[b.0 as int],
        other_lane.uids@[b.1 as int],
        other.config.cache_salt,
    );
}

} // verus!
