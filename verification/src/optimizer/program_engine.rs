//! The evaluation of overlays of one program: what is run, and what is counted and kept of it.

use vstd::prelude::*;

use crate::json;
use crate::json::{Json, JsonView};
use crate::optimizer::engine;
use crate::optimizer::engine::{RolloutCache, Spend};
use crate::optimizer::matrix::{MatrixView, ParetoView, ScoreMatrix};
use crate::optimizer::rollouts;
use crate::optimizer::rollouts::{
    BatchPlan,
    BatchStep,
    CandidateEval,
    CandidatePayload,
    Engine,
    EngineConfig,
    EngineError,
    FreshRollout,
    GateStep,
    Lane,
    Ledger,
    Overlay,
};
use crate::optimizer::structural::StructuralRun;
use crate::optimizer::target::DemoRow;
use crate::text;
use crate::trace::{Eval, LmUsage};

verus! {

/// What came of evaluating candidates.
#[derive(Debug)]
pub enum ProgramEvalOutcome {
    Complete(Vec<CandidateEval>),
    BudgetExhausted { needed: usize },
}

impl ProgramEvalOutcome {
    pub fn completed(self) -> (r: Option<Vec<CandidateEval>>)
        ensures
            match self {
                ProgramEvalOutcome::Complete(evals) => r == Some(evals),
                ProgramEvalOutcome::BudgetExhausted { .. } => r is None,
            },
    {
        match self {
            ProgramEvalOutcome::Complete(evals) => Some(evals),
            ProgramEvalOutcome::BudgetExhausted { .. } => None,
        }
    }
}

/// An example as a JSON object.
pub open spec fn row_json(row: DemoRow) -> JsonView {
    JsonView::Object(
        seq![
            ("input"@, JsonView::Object(json::members_view(row.input@))),
            ("output"@, JsonView::Object(json::members_view(row.output@))),
        ],
    )
}

/// By what an example is known in the cache.
pub open spec fn row_uid(row: DemoRow) -> u64 {
    json::hash_of(json::canonical(row_json(row)))
}

pub fn example_uid(row: &DemoRow) -> (r: u64)
    ensures
        r == row_uid(*row),
{
    let mut members: Vec<(String, Json)> = Vec::new();
    members.push(("input".to_owned(), json::object(json::clone_map(&row.input))));
    members.push(("output".to_owned(), json::object(json::clone_map(&row.output))));
    proof {
        assert(json::members_view(members@) =~= seq![
            ("input"@, JsonView::Object(json::members_view(row.input@))),
            ("output"@, JsonView::Object(json::members_view(row.output@))),
        ]);
    }
    let value = json::object(members);
    json::canonical_hash(&value)
}

/// An evaluation engine for overlays of one program. `lane` holds the program's hash and what
/// the examples are known by.
#[derive(Debug)]
pub struct ProgramEvalEngine {
    pub examples: Vec<DemoRow>,
    pub lane: Lane,
    pub engine: Engine,
}

/// What failed when a rollout could not be run.
pub fn rollout_failure(candidate: usize, example: usize, error: &str) -> (r: String)
    ensures
        r@ == "candidate "@ + text::decimal(candidate as nat) + " failed on example "@
            + text::decimal(example as nat) + ": "@ + error@,
{
    let mut out = "candidate ".to_owned();
    text::push_decimal(&mut out, candidate as u64);
    out.append(" failed on example ");
    text::push_decimal(&mut out, example as u64);
    out.append(": ");
    out.append(error);
    out
}

impl ProgramEvalEngine {
    /// Examples are known by their content, and all candidates are overlays.
    pub open spec fn wf(&self) -> bool {
        &&& self.engine.wf()
        &&& self.lane.uids@.len() == self.examples@.len()
        &&& forall|i: int|
            0 <= i < self.examples@.len() ==> self.lane.uids@[i] == row_uid(
                #[trigger] self.examples@[i],
            )
        &&& forall|i: int|
            0 <= i < self.engine.payloads@.len() ==> (#[trigger] self.engine.payloads@[i])
                is Overlay
    }

    /// An engine without candidates.
    pub fn new(examples: Vec<DemoRow>, config: EngineConfig) -> (r: Self)
        ensures
            r.wf(),
            r.examples == examples,
            r.engine.payloads@.len() == 0,
            r.engine.ledger.config == config,
            r.engine.ledger.matrix@ == MatrixView::empty(examples@.len() as int),
            r.engine.ledger.cache@ == Map::<Seq<char>, Eval>::empty(),
            r.engine.ledger.spend == (Spend {
                metric_calls: 0,
                lm_calls: 0,
                lm_spans: 0,
                cache_hits: 0,
                tokens: LmUsage::zero(),
            }),
            r.engine.ledger.peak == 0,
    {
        let mut uids: Vec<u64> = Vec::new();
        let mut i: usize = 0;
        while i < examples.len()
            invariant
                i <= examples@.len(),
                uids@.len() == i,
                forall|k: int| 0 <= k < i ==> uids@[k] == row_uid(#[trigger] examples@[k]),
            decreases examples@.len() - i,
        {
            uids.push(example_uid(&examples[i]));
            i += 1;
        }
        let columns = examples.len();
        ProgramEvalEngine {
            examples,
            lane: Lane { baseline: 0, uids },
            engine: Engine { ledger: Ledger::new(config, columns), payloads: Vec::new() },
        }
    }

    pub fn examples(&self) -> (r: &Vec<DemoRow>)
        ensures
            *r == self.examples,
    {
        &self.examples
    }

    pub fn num_examples(&self) -> (r: usize)
        ensures
            r == self.examples@.len(),
    {
        self.examples.len()
    }

    pub fn config(&self) -> (r: &EngineConfig)
        ensures
            *r == self.engine.ledger.config,
    {
        self.engine.config()
    }

    pub fn spend(&self) -> (r: &Spend)
        ensures
            *r == self.engine.ledger.spend,
    {
        self.engine.spend()
    }

    pub fn matrix(&self) -> (r: &ScoreMatrix)
        ensures
            *r == self.engine.ledger.matrix,
    {
        self.engine.matrix()
    }

    pub fn cache(&self) -> (r: &RolloutCache)
        ensures
            *r == self.engine.ledger.cache,
    {
        self.engine.cache()
    }

    pub fn pareto(&self) -> (r: ParetoView)
        requires
            self.wf(),
        ensures
            r.describes(
                self.engine.ledger.matrix@,
                Seq::new(self.engine.ledger.matrix@.columns as nat, |i: int| i as usize),
            ),
    {
        self.engine.pareto()
    }

    pub fn pareto_over(&self, columns: &[usize]) -> (r: ParetoView)
        requires
            self.wf(),
        ensures
            r.describes(self.engine.ledger.matrix@, columns@),
    {
        self.engine.pareto_over(columns)
    }

    pub fn peak_candidate_concurrency(&self) -> (r: usize)
        ensures
            r == self.engine.ledger.peak,
    {
        self.engine.peak_candidate_concurrency()
    }

    /// The row of an overlay; one with new content gets a new row.
    pub fn register(&mut self, overlay: Overlay) -> (r: usize)
        requires
            old(self).wf(),
            old(self).engine.payloads@.len() < usize::MAX,
        ensures
            final(self).wf(),
            final(self).examples == old(self).examples,
            final(self).lane == old(self).lane,
            StructuralRun::registers_overlay(
                old(self).engine,
                final(self).engine,
                overlay,
                r,
            ),
    {
        let ghost before = self.engine;
        let row = self.engine.register_overlay(overlay);
        proof {
            assert forall|i: int| 0 <= i < self.engine.payloads@.len() implies (
            #[trigger] self.engine.payloads@[i]) is Overlay by {
                if i < before.payloads@.len() {
                    assert(before.payloads@[i] == self.engine.payloads@[i]) by {
                        if self.engine != before {
                            assert(self.engine.payloads@.drop_last()[i] == before.payloads@[i]);
                        }
                    }
                }
            }
        }
        row
    }

    pub fn candidate(&self, index: usize) -> (r: Option<&Overlay>)
        requires
            self.wf(),
        ensures
            match r {
                Some(o) => index < self.engine.payloads@.len()
                    && self.engine.payloads@[index as int] == CandidatePayload::Overlay(*o),
                None => index >= self.engine.payloads@.len(),
            },
    {
        if index >= self.engine.payloads.len() {
            return None;
        }
        match &self.engine.payloads[index] {
            CandidatePayload::Overlay(o) => Some(o),
            CandidatePayload::Params { .. } => None,
        }
    }

    pub fn candidate_hash(&self, index: usize) -> (r: u64)
        requires
            self.wf(),
            index < self.engine.payloads@.len(),
        ensures
            r == self.engine.ledger.hashes@[index as int],
    {
        self.engine.candidate_hash(index)
    }

    pub fn num_candidates(&self) -> (r: usize)
        ensures
            r == self.engine.payloads@.len(),
    {
        self.engine.num_candidates()
    }

    pub fn budget_allows(&self, upcoming_rollouts: usize) -> (r: bool)
        ensures
            r == self.engine.ledger.config.budget.admits(
                self.engine.ledger.spend,
                upcoming_rollouts,
            ),
    {
        self.engine.budget_allows(upcoming_rollouts)
    }

    /// Adds calls that were made outside of rollouts.
    pub fn charge(&mut self, metric_calls: usize, lm_calls: usize)
        requires
            old(self).wf(),
        ensures
            final(self).wf(),
            *final(self) == (ProgramEvalEngine {
                engine: old(self).engine.charged(metric_calls, lm_calls),
                ..*old(self)
            }),
    {
        self.engine.charge(metric_calls, lm_calls);
    }

    /// The engine with another program chosen.
    pub open spec fn on_program(self, program_hash: u64) -> ProgramEvalEngine {
        ProgramEvalEngine { lane: Lane { baseline: program_hash, ..self.lane }, ..self }
    }

    /// Begins the evaluation of candidates over a program, on all examples when there is no
    /// subset. The rollouts of the plan are run, and `commit` ends the batch with them.
    pub fn evaluate_program_candidates(
        &mut self,
        program_hash: u64,
        candidates: &[usize],
        subset: Option<&[usize]>,
    ) -> (r: Result<BatchStep, EngineError>)
        requires
            old(self).wf(),
        ensures
            final(self).wf(),
            *final(self) == old(self).on_program(program_hash),
            final(self).engine.begins(
                final(self).lane,
                candidates@,
                rollouts::subset_view(subset),
                r,
            ),
    {
        self.lane.baseline = program_hash;
        self.engine.evaluate_many(&self.lane, candidates, subset)
    }

    /// Ends a batch: what was run is counted, cached and scored, and every request gets its
    /// evaluation.
    pub fn commit(
        &mut self,
        plan: BatchPlan,
        fresh: Vec<FreshRollout>,
        batch_peak: usize,
    ) -> (r: Vec<CandidateEval>)
        requires
            old(self).wf(),
            old(self).engine.ledger.planned(old(self).lane, plan),
            rollouts::answers(fresh@, plan.pending@),
            rollouts::spend_fits(old(self).engine.ledger.spend, fresh@, plan.cached@.len()),
        ensures
            final(self).wf(),
            final(self).examples == old(self).examples,
            final(self).lane == old(self).lane,
            Engine::commits(
                old(self).engine,
                final(self).engine,
                old(self).lane,
                plan,
                fresh@,
                batch_peak,
            ),
            rollouts::evals_of(r@, plan, fresh@),
    {
        self.engine.commit_many(&self.lane, plan, fresh, batch_peak)
    }

    /// Begins the evaluation of one candidate.
    pub fn evaluate(&mut self, program_hash: u64, candidate: usize, subset: Option<&[usize]>) -> (r:
        Result<BatchStep, EngineError>)
        requires
            old(self).wf(),
        ensures
            final(self).wf(),
            *final(self) == old(self).on_program(program_hash),
            final(self).engine.begins(
                final(self).lane,
                seq![candidate],
                rollouts::subset_view(subset),
                r,
            ),
    {
        self.lane.baseline = program_hash;
        self.engine.evaluate(&self.lane, candidate, subset)
    }

    /// Goes on with a gated evaluation once the minibatch was evaluated.
    pub fn evaluate_gated(
        &mut self,
        program_hash: u64,
        candidate: usize,
        minibatch: CandidateEval,
        mean: i64,
        threshold: i64,
    ) -> (r: Result<GateStep, EngineError>)
        requires
            old(self).wf(),
        ensures
            final(self).wf(),
            *final(self) == old(self).on_program(program_hash),
            final(self).engine.gates(
                final(self).lane,
                candidate,
                minibatch,
                mean,
                threshold,
                r,
            ),
    {
        self.lane.baseline = program_hash;
        self.engine.evaluate_gated(&self.lane, candidate, minibatch, mean, threshold)
    }
}

/// A rollout that was committed is free from then on: over the same program, for the same
/// overlay and the same example, it comes out of the cache.
pub proof fn committed_program_rollouts_are_cached(
    before: ProgramEvalEngine,
    after: ProgramEvalEngine,
    plan: BatchPlan,
    fresh: Seq<FreshRollout>,
    batch_peak: usize,
    k: int,
)
    requires
        before.wf(),
        Engine::commits(before.engine, after.engine, before.lane, plan, fresh, batch_peak),
        rollouts::answers(fresh, plan.pending@),
        before.engine.ledger.planned(before.lane, plan),
        0 <= k < fresh.len(),
    ensures
        after.engine.ledger.hit(before.lane, rollouts::fresh_pair(fresh[k])),
{
    rollouts::committed_rollouts_are_cached(
        before.engine,
        after.engine,
        before.lane,
        plan,
        fresh,
        batch_peak,
        k,
    );
}

} // verus!
