//! Evolving instructions from feedback: the run of GEPA as steps between evaluations.

use rand::rngs::StdRng;
use vstd::prelude::*;

use crate::optimizer::engine::Candidate;
use crate::optimizer::matrix;
use crate::optimizer::matrix::{ParetoStatistics, ParetoView};
use crate::optimizer::pareto::{GEPACandidate, GepaView};
use crate::optimizer::rollouts;
use crate::optimizer::rollouts::{
    BatchPlan,
    BatchStep,
    CandidateEval,
    Engine,
    EngineConfig,
    EngineError,
    Lane,
};
use crate::optimizer::summary;
use crate::optimizer::target;
use crate::optimizer::target::LeafInfo;
use crate::optimizer::trial;
use crate::optimizer::trial::Mean;
use crate::optimizer::OptimizerCommon;
use crate::random;
use crate::text;
use crate::text_laws;
use crate::trace::Score;

verus! {

/// How much feedback an instruction takes up when it is grown by concatenation.
pub const CONCAT_FEEDBACK_BUDGET: usize = 2000;

/// The settings of GEPA. `reflects` says that a model proposes the instructions.
#[derive(Clone, Copy, Debug, PartialEq, Eq, Structural)]
pub struct GEPA {
    pub num_iterations: usize,
    pub minibatch_size: usize,
    pub num_trials: usize,
    pub track_stats: bool,
    pub track_best_outputs: bool,
    pub max_rollouts: Option<usize>,
    pub max_lm_calls: Option<usize>,
    pub reflects: bool,
    pub eval_concurrency: usize,
    pub seed: Option<u64>,
}

impl Default for GEPA {
    fn default() -> (r: Self)
        ensures
            r == (GEPA {
                num_iterations: 20,
                minibatch_size: 25,
                num_trials: 10,
                track_stats: true,
                track_best_outputs: false,
                max_rollouts: None,
                max_lm_calls: None,
                reflects: false,
                eval_concurrency: rollouts::DEFAULT_EVAL_CONCURRENCY,
                seed: None,
            }),
    {
        GEPA {
            num_iterations: 20,
            minibatch_size: 25,
            num_trials: 10,
            track_stats: true,
            track_best_outputs: false,
            max_rollouts: None,
            max_lm_calls: None,
            reflects: false,
            eval_concurrency: rollouts::DEFAULT_EVAL_CONCURRENCY,
            seed: None,
        }
    }
}

/// The candidates of a run in the order in which they came, each with its row in the engine.
#[derive(Debug)]
pub struct Lineage {
    pub entries: Vec<(GEPACandidate, usize)>,
}

/// The entry is the candidate with its number and its scores.
pub open spec fn entered(
    entry: (GEPACandidate, usize),
    candidate: GepaView,
    id: int,
    row: usize,
    scores: Seq<Score>,
    average: i64,
) -> bool {
    &&& entry.1 == row
    &&& entry.0@ == (GepaView { id: id as usize, example_scores: scores, average, ..candidate })
}

impl Lineage {
    pub fn new() -> (r: Self)
        ensures
            r.entries@.len() == 0,
    {
        Lineage { entries: Vec::new() }
    }

    /// Adds an evaluated candidate; its number is its place.
    pub fn add(
        &mut self,
        candidate: GEPACandidate,
        engine_row: usize,
        eval: &CandidateEval,
        average: i64,
    )
        ensures
            final(self).entries@.len() == old(self).entries@.len() + 1,
            final(self).entries@.drop_last() == old(self).entries@,
            entered(
                final(self).entries@.last(),
                candidate@,
                old(self).entries@.len() as int,
                engine_row,
                rollouts::scores_of(eval.rollouts@),
                average,
            ),
    {
        let scores = eval.scores();
        let mut entry = candidate;
        entry.id = self.entries.len();
        entry.example_scores = scores;
        entry.average = average;
        let ghost before = self.entries@;
        self.entries.push((entry, engine_row));
        proof {
            assert(self.entries@.drop_last() =~= before);
        }
    }

    /// How often each candidate is among the best.
    pub open spec fn weighs(&self, pareto: ParetoView, weights: Seq<usize>) -> bool {
        &&& weights.len() == self.entries@.len()
        &&& forall|i: int|
            0 <= i < weights.len() ==> #[trigger] weights[i] == pareto.wins_of(
                self.entries@[i].1 as int,
            )
    }

    pub fn weights(&self, pareto: &ParetoView) -> (r: Vec<usize>)
        ensures
            self.weighs(*pareto, r@),
    {
        let mut out: Vec<usize> = Vec::new();
        let mut i: usize = 0;
        while i < self.entries.len()
            invariant
                i <= self.entries@.len(),
                out@.len() == i,
                forall|k: int|
                    0 <= k < i ==> #[trigger] out@[k] == pareto.wins_of(self.entries@[k].1 as int),
            decreases self.entries@.len() - i,
        {
            out.push(pareto.wins(self.entries[i].1));
            i += 1;
        }
        out
    }

    /// The wins together fit a counter.
    pub open spec fn weight_fits(&self, pareto: ParetoView) -> bool {
        forall|w: Seq<usize>| #[trigger]
            self.weighs(pareto, w) ==> matrix::sum_of(w, w.len()) <= usize::MAX
    }

    /// A parent, drawn in proportion to how often it is among the best; the first one when
    /// none is.
    pub fn sample_parent(&self, pareto: &ParetoView, rng: &mut StdRng) -> (r: Option<usize>)
        requires
            self.weight_fits(*pareto),
        ensures
            r is None <==> self.entries@.len() == 0,
            r is Some ==> exists|w: Seq<usize>, drawn: nat| #[trigger]
                self.weighs(*pareto, w) && #[trigger] trial::picked(w, drawn, r->0 as int),
    {
        if self.entries.len() == 0 {
            return None;
        }
        let weights = self.weights(pareto);
        let total = trial::total_weight(&weights);
        let drawn: usize = if total == 0 {
            0
        } else {
            random::below(rng, total)
        };
        let at = trial::pick(&weights, drawn);
        let r = Some(at);
        proof {
            let n: nat = drawn as nat;
            assert(self.weighs(*pareto, weights@) && trial::picked(weights@, n, r->0 as int));
        }
        r
    }

    /// The candidate is best somewhere.
    pub open spec fn on_frontier(&self, pareto: ParetoView, i: int) -> bool {
        0 <= i < self.entries@.len() && pareto.wins_of(self.entries@[i].1 as int) > 0
    }

    /// The candidate of the frontier with the highest average, the last of several.
    pub open spec fn is_best(&self, pareto: ParetoView, best: Option<usize>) -> bool {
        match best {
            Some(b) => self.on_frontier(pareto, b as int) && forall|j: int| #[trigger]
                self.on_frontier(pareto, j) ==> self.entries@[j].0.average
                    <= self.entries@[b as int].0.average && (j > b ==> self.entries@[j].0.average
                    < self.entries@[b as int].0.average),
            None => forall|j: int| !#[trigger] self.on_frontier(pareto, j),
        }
    }

    pub fn best_by_average(&self, pareto: &ParetoView) -> (r: Option<usize>)
        ensures
            self.is_best(*pareto, r),
    {
        let mut best: Option<usize> = None;
        let mut i: usize = 0;
        while i < self.entries.len()
            invariant
                i <= self.entries@.len(),
                match best {
                    Some(b) => b < i && self.on_frontier(*pareto, b as int) && forall|j: int|
                        #![trigger self.on_frontier(*pareto, j)]
                        j < i && self.on_frontier(*pareto, j) ==> self.entries@[j].0.average
                            <= self.entries@[b as int].0.average && (j > b
                            ==> self.entries@[j].0.average < self.entries@[b as int].0.average),
                    None => forall|j: int| j < i ==> !#[trigger] self.on_frontier(*pareto, j),
                },
            decreases self.entries@.len() - i,
        {
            if pareto.wins(self.entries[i].1) > 0 {
                proof {
                    assert(self.on_frontier(*pareto, i as int));
                }
                match best {
                    Some(b) => {
                        if self.entries[i].0.average >= self.entries[b].0.average {
                            best = Some(i);
                        }
                    },
                    None => {
                        best = Some(i);
                    },
                }
            }
            i += 1;
        }
        best
    }
}

/// The parent's instruction with the feedback on it behind.
pub open spec fn concat_instruction(
    parent: Seq<char>,
    feedback: Seq<char>,
    score: Seq<char>,
    generation: nat,
) -> Seq<char> {
    parent + "\n\n[GEPA gen "@ + text::decimal(generation + 1) + "] Improve based on feedback:\n"@
        + text::truncated(feedback, CONCAT_FEEDBACK_BUDGET as nat) + "\n(Parent score "@ + score
        + ")"@
}

/// Whatever the feedback, an instruction grows by a bounded amount.
pub proof fn concatenation_is_bounded(
    parent: Seq<char>,
    feedback: Seq<char>,
    score: Seq<char>,
    generation: nat,
)
    ensures
        concat_instruction(parent, feedback, score, generation).len() <= parent.len()
            + CONCAT_FEEDBACK_BUDGET + score.len() + text::decimal(generation + 1).len() + 60,
        text::has_prefix(concat_instruction(parent, feedback, score, generation), parent),
{
    reveal_strlit("\n\n[GEPA gen ");
    reveal_strlit("] Improve based on feedback:\n");
    reveal_strlit("\n(Parent score ");
    reveal_strlit(")");
    reveal_strlit("...");
    let r = concat_instruction(parent, feedback, score, generation);
    assert(r.subrange(0, parent.len() as int) =~= parent);
}

/// What a reflecting model is asked.
#[derive(Debug)]
pub struct ReflectOnInstruction {
    pub task_description: String,
    pub current_instruction: String,
    pub execution_feedback: String,
}

/// What the driver of a run does next.
#[derive(Debug)]
pub enum GepaAction {
    /// Run the pending rollouts of the plan, commit them, and hand back the evaluation.
    Evaluate { plan: BatchPlan },
    /// Go on with `next_generation`.
    Draw,
    /// Ask the reflecting model, and hand back its reply.
    Reflect { prompt: ReflectOnInstruction },
    /// Run the winner on the examples for its outputs.
    CollectOutputs { columns: Vec<usize>, winner: Candidate },
    /// Install the winner: the run is over.
    Install { winner: Candidate },
}

/// Why a run fails.
#[derive(Debug)]
pub enum GepaError {
    NoPredictors,
    FeedbackMissing { module_name: String, generation: usize },
    NoParent,
    NoFrontier,
    Engine(EngineError),
}

impl GepaError {
    pub open spec fn text(&self) -> Seq<char> {
        match self {
            GepaError::NoPredictors => "no optimizable predictors found"@,
            GepaError::FeedbackMissing { module_name, generation } =>
                "GEPA requires feedback for every evaluated example (module=`"@ + module_name@
                + "`, generation="@ + text::decimal(*generation as nat) + ")"@,
            GepaError::NoParent => "failed to sample from frontier"@,
            GepaError::NoFrontier => "no candidates available on Pareto frontier"@,
            GepaError::Engine(e) => e.text(),
        }
    }

    pub fn message(&self) -> (r: String)
        ensures
            r@ == self.text(),
    {
        match self {
            GepaError::NoPredictors => "no optimizable predictors found".to_owned(),
            GepaError::FeedbackMissing { module_name, generation } => {
                let mut out =
                    "GEPA requires feedback for every evaluated example (module=`".to_owned();
                out.append(module_name.as_str());
                out.append("`, generation=");
                text::push_decimal(&mut out, *generation as u64);
                out.append(")");
                out
            },
            GepaError::NoParent => "failed to sample from frontier".to_owned(),
            GepaError::NoFrontier => "no candidates available on Pareto frontier".to_owned(),
            GepaError::Engine(e) => e.message(),
        }
    }
}

/// What a run waits for.
#[derive(Debug)]
pub enum GepaPhase {
    /// The evaluation of the instruction that a leaf starts from.
    Seeding { leaf: usize, row: usize },
    /// The next generation.
    Ready,
    /// The evaluation of a parent on a minibatch.
    Parent { parent: usize },
    /// The reply of the reflecting model.
    Reflecting { parent: usize, feedback: String, score: Mean },
    /// The evaluation of a child.
    Child { child: GEPACandidate, row: usize },
    /// The outputs of the winner.
    Outputs { best: usize },
    /// Nothing: the run is over.
    Done { best: usize },
}

/// A run of GEPA.
#[derive(Debug)]
pub struct GepaRun {
    pub config: GEPA,
    pub leaves: Vec<LeafInfo>,
    pub val_cols: Vec<usize>,
    pub train_pool: Vec<usize>,
    pub lineage: Lineage,
    pub generation: usize,
    pub phase: GepaPhase,
    pub all_candidates: Vec<GEPACandidate>,
    pub evolution_history: Vec<(usize, i64)>,
    pub frontier_history: Vec<ParetoStatistics>,
}

impl GEPA {
    pub open spec fn common_spec(&self) -> OptimizerCommon {
        OptimizerCommon {
            eval_concurrency: self.eval_concurrency,
            max_metric_calls: self.max_rollouts,
            max_lm_calls: self.max_lm_calls,
            cache_salt: 0,
            seed: self.seed,
        }
    }

    pub fn common(&self) -> (r: OptimizerCommon)
        ensures
            r == self.common_spec(),
    {
        OptimizerCommon {
            eval_concurrency: self.eval_concurrency,
            max_metric_calls: self.max_rollouts,
            max_lm_calls: self.max_lm_calls,
            cache_salt: 0,
            seed: self.seed,
        }
    }

    pub fn engine_config(&self) -> (r: EngineConfig)
        ensures
            r == self.common_spec().engine_config_spec(),
    {
        self.common().engine_config()
    }

    /// The instruction of a child without a reflecting model.
    pub fn concat_child_instruction(
        parent_instruction: &str,
        feedback_summary: &str,
        parent_score: &str,
        generation: usize,
    ) -> (r: String)
        requires
            generation < usize::MAX,
        ensures
            r@ == concat_instruction(
                parent_instruction@,
                feedback_summary@,
                parent_score@,
                generation as nat,
            ),
    {
        let mut out = parent_instruction.to_owned();
        out.append("\n\n[GEPA gen ");
        text::push_decimal(&mut out, (generation + 1) as u64);
        out.append("] Improve based on feedback:\n");
        let shown = text::truncate_str(feedback_summary, CONCAT_FEEDBACK_BUDGET);
        out.append(shown.as_str());
        out.append("\n(Parent score ");
        out.append(parent_score);
        out.append(")");
        out
    }

    /// The minibatch size for a pool: at least one example, and no more than there are.
    pub open spec fn batch_size(minibatch_size: usize, pool: nat) -> nat {
        let wanted = if minibatch_size == 0 {
            1nat
        } else {
            minibatch_size as nat
        };
        if wanted < pool {
            wanted
        } else {
            pool
        }
    }
}

impl GepaRun {
    /// Positions are in range, and no generation is past the last.
    pub open spec fn wf(&self) -> bool {
        &&& self.leaves@.len() > 0
        &&& self.generation <= self.config.num_iterations
        &&& match self.phase {
            GepaPhase::Seeding { leaf, .. } => leaf < self.leaves@.len(),
            GepaPhase::Ready => true,
            GepaPhase::Parent { parent } => parent < self.lineage.entries@.len()
                && self.generation < self.config.num_iterations,
            GepaPhase::Reflecting { parent, .. } => parent < self.lineage.entries@.len()
                && self.generation < self.config.num_iterations,
            GepaPhase::Child { .. } => self.generation < self.config.num_iterations,
            GepaPhase::Outputs { best } => best < self.lineage.entries@.len(),
            GepaPhase::Done { best } => best < self.lineage.entries@.len(),
        }
    }

    pub open spec fn with_phase(self, phase: GepaPhase) -> GepaRun {
        GepaRun { phase, ..self }
    }

    /// A run over a target.
    pub fn new(
        config: GEPA,
        leaves: Vec<LeafInfo>,
        val_cols: Vec<usize>,
        train_pool: Vec<usize>,
    ) -> (r: Result<Self, GepaError>)
        ensures
            match r {
                Ok(run) => {
                    &&& leaves@.len() > 0
                    &&& run.wf()
                    &&& run.config == config
                    &&& run.leaves == leaves
                    &&& run.val_cols == val_cols
                    &&& run.train_pool == train_pool
                    &&& run.lineage.entries@.len() == 0
                    &&& run.generation == 0
                    &&& run.phase is Ready
                    &&& run.all_candidates@.len() == 0
                    &&& run.evolution_history@.len() == 0
                    &&& run.frontier_history@.len() == 0
                },
                Err(e) => leaves@.len() == 0 && e is NoPredictors,
            },
    {
        if leaves.len() == 0 {
            return Err(GepaError::NoPredictors);
        }
        Ok(
            GepaRun {
                config,
                leaves,
                val_cols,
                train_pool,
                lineage: Lineage::new(),
                generation: 0,
                phase: GepaPhase::Ready,
                all_candidates: Vec::new(),
                evolution_history: Vec::new(),
                frontier_history: Vec::new(),
            },
        )
    }

    /// Seeding from a leaf on: its own instruction is evaluated on the validation examples.
    /// Behind the last leaf, and when the budget is exhausted, generations begin.
    pub open spec fn seeds(
        before: GepaRun,
        engine_before: Engine,
        after: GepaRun,
        engine_after: Engine,
        lane: Lane,
        leaf: usize,
        r: Result<GepaAction, GepaError>,
    ) -> bool {
        if leaf >= before.leaves@.len() {
            &&& after == before.with_phase(GepaPhase::Ready)
            &&& engine_after == engine_before
            &&& r == Ok::<GepaAction, GepaError>(GepaAction::Draw)
        } else {
            exists|row: usize, begun: Result<BatchStep, EngineError>| #[trigger]
                trial::tried(
                    engine_before,
                    engine_after,
                    lane,
                    trial::single(
                        before.leaves@[leaf as int].name@,
                        before.leaves@[leaf as int].instruction@,
                    ),
                    Some(before.val_cols@),
                    row,
                    begun,
                ) && match begun {
                    Ok(BatchStep::Run(plan)) => after == before.with_phase(
                        GepaPhase::Seeding { leaf, row },
                    ) && r == Ok::<GepaAction, GepaError>(GepaAction::Evaluate { plan }),
                    Ok(BatchStep::BudgetExhausted { .. }) => after == before.with_phase(
                        GepaPhase::Ready,
                    ) && r == Ok::<GepaAction, GepaError>(GepaAction::Draw),
                    Err(e) => after == before && r == Err::<GepaAction, GepaError>(
                        GepaError::Engine(e),
                    ),
                }
        }
    }

    /// Begins the evaluation of the instruction that a leaf starts from.
    pub fn seed(&mut self, engine: &mut Engine, lane: &Lane, leaf: usize) -> (r: Result<
        GepaAction,
        GepaError,
    >)
        requires
            old(self).wf(),
            old(engine).wf(),
            old(engine).payloads@.len() < usize::MAX,
        ensures
            final(self).wf(),
            final(engine).wf(),
            GepaRun::seeds(
                *old(self),
                *old(engine),
                *final(self),
                *final(engine),
                *lane,
                leaf,
                r,
            ),
    {
        if leaf >= self.leaves.len() {
            self.phase = GepaPhase::Ready;
            return Ok(GepaAction::Draw);
        }
        let (row, begun) = trial::try_instruction(
            engine,
            lane,
            self.leaves[leaf].name.as_str(),
            self.leaves[leaf].instruction.as_str(),
            &self.val_cols,
        );
        let ghost seen = begun;
        proof {
            assert(trial::tried(
                *old(engine),
                *engine,
                *lane,
                trial::single(
                    self.leaves@[leaf as int].name@,
                    self.leaves@[leaf as int].instruction@,
                ),
                Some(self.val_cols@),
                row,
                seen,
            ));
        }
        match begun {
            Ok(BatchStep::Run(plan)) => {
                self.phase = GepaPhase::Seeding { leaf, row };
                Ok(GepaAction::Evaluate { plan })
            },
            Ok(BatchStep::BudgetExhausted { .. }) => {
                self.phase = GepaPhase::Ready;
                Ok(GepaAction::Draw)
            },
            Err(e) => Err(GepaError::Engine(e)),
        }
    }

    /// Only the lineage grew, by the evaluated candidate, and with it the list of all candidates
    /// where one is kept.
    pub open spec fn extended(
        before: GepaRun,
        after: GepaRun,
        candidate: GepaView,
        row: usize,
        eval: CandidateEval,
        average: i64,
    ) -> bool {
        &&& after == (GepaRun {
            lineage: after.lineage,
            all_candidates: after.all_candidates,
            ..before
        })
        &&& if before.config.track_stats {
            &&& after.all_candidates@.len() == before.all_candidates@.len() + 1
            &&& after.all_candidates@.drop_last() == before.all_candidates@
            &&& after.all_candidates@.last()@ == after.lineage.entries@.last().0@
        } else {
            after.all_candidates == before.all_candidates
        }
        &&& after.lineage.entries@.len() == before.lineage.entries@.len() + 1
        &&& after.lineage.entries@.drop_last() == before.lineage.entries@
        &&& entered(
            after.lineage.entries@.last(),
            candidate,
            before.lineage.entries@.len() as int,
            row,
            rollouts::scores_of(eval.rollouts@),
            average,
        )
    }

    /// The candidate that a leaf starts from.
    pub open spec fn seed_candidate(leaf: LeafInfo) -> GepaView {
        GepaView {
            id: 0,
            instruction: leaf.instruction@,
            module_name: leaf.name@,
            example_scores: Seq::empty(),
            average: 0,
            parent_id: None,
            generation: 0,
        }
    }

    /// Takes the evaluation of a seed: it joins the lineage, and the next leaf is begun.
    pub fn on_seed_evaluated(
        &mut self,
        engine: &mut Engine,
        lane: &Lane,
        eval: &CandidateEval,
        average: i64,
    ) -> (r: Result<GepaAction, GepaError>)
        requires
            old(self).wf(),
            old(self).phase is Seeding,
            old(engine).wf(),
            old(engine).payloads@.len() < usize::MAX,
        ensures
            final(self).wf(),
            final(engine).wf(),
            ({
                let leaf = old(self).phase->leaf;
                let info = old(self).leaves@[leaf as int];
                if trial::all_have_feedback(eval.rollouts@) {
                    exists|mid: GepaRun| #[trigger]
                        GepaRun::extended(
                            *old(self),
                            mid,
                            GepaRun::seed_candidate(info),
                            old(self).phase->Seeding_row,
                            *eval,
                            average,
                        ) && GepaRun::seeds(
                            mid,
                            *old(engine),
                            *final(self),
                            *final(engine),
                            *lane,
                            (leaf + 1) as usize,
                            r,
                        )
                } else {
                    &&& *final(self) == *old(self)
                    &&& *final(engine) == *old(engine)
                    &&& r matches Err(GepaError::FeedbackMissing { module_name, generation })
                        && module_name@ == info.name@ && generation == 0
                }
            }),
    {
        match self.phase {
            GepaPhase::Seeding { leaf, row } => {
                if !trial::has_all_feedback(eval) {
                    return Err(
                        GepaError::FeedbackMissing {
                            module_name: self.leaves[leaf].name.clone(),
                            generation: 0,
                        },
                    );
                }
                let count = self.leaves.len();
                let candidate = GEPACandidate {
                    id: 0,
                    instruction: self.leaves[leaf].instruction.clone(),
                    module_name: self.leaves[leaf].name.clone(),
                    example_scores: Vec::new(),
                    average: 0,
                    parent_id: None,
                    generation: 0,
                };
                self.lineage.add(candidate, row, eval, average);
                if self.config.track_stats {
                    let last = self.lineage.entries.len() - 1;
                    let copy = self.lineage.entries[last].0.clone();
                    self.all_candidates.push(copy);
                    proof {
                        assert(self.all_candidates@.drop_last() =~= old(self).all_candidates@);
                    }
                }
                let ghost mid = *self;
                proof {
                    assert(GepaRun::extended(
                        *old(self),
                        mid,
                        GepaRun::seed_candidate(self.leaves@[leaf as int]),
                        row,
                        *eval,
                        average,
                    ));
                }
                self.seed(engine, lane, leaf + 1)
            },
            _ => Ok(GepaAction::Draw),
        }
    }

    /// Whether another generation is due: there is one left, and the budget admits a rollout.
    pub fn wants_generation(&self, engine: &Engine) -> (r: bool)
        ensures
            r == (self.generation < self.config.num_iterations
                && engine.ledger.config.budget.admits(engine.ledger.spend, 1)),
    {
        self.generation < self.config.num_iterations && engine.budget_allows(1)
    }

    /// The end of a run: the best candidate of the frontier wins. Its outputs are collected
    /// when that is asked for and the budget admits it.
    pub open spec fn finishes(
        before: GepaRun,
        after: GepaRun,
        engine: Engine,
        r: Result<GepaAction, GepaError>,
    ) -> bool {
        exists|pareto: ParetoView, best: Option<usize>| #[trigger]
            pareto.describes(engine.ledger.matrix@, before.val_cols@) && #[trigger]
            before.lineage.is_best(pareto, best) && match best {
                None => after == before && r matches Err(GepaError::NoFrontier),
                Some(b) => {
                    let top = before.lineage.entries@[b as int].0;
                    if before.config.track_best_outputs && engine.ledger.config.budget.admits(
                        engine.ledger.spend,
                        before.val_cols@.len() as usize,
                    ) {
                        &&& after == before.with_phase(GepaPhase::Outputs { best: b })
                        &&& r matches Ok(GepaAction::CollectOutputs { columns, winner })
                            && columns@ == before.val_cols@ && winner.wf() && winner@
                            == trial::single(top.module_name@, top.instruction@)
                    } else {
                        &&& after == before.with_phase(GepaPhase::Done { best: b })
                        &&& r matches Ok(GepaAction::Install { winner }) && winner.wf() && winner@
                            == trial::single(top.module_name@, top.instruction@)
                    }
                },
            }
    }

    pub fn finish(&mut self, engine: &Engine) -> (r: Result<GepaAction, GepaError>)
        requires
            old(self).wf(),
            engine.wf(),
        ensures
            final(self).wf(),
            GepaRun::finishes(*old(self), *final(self), *engine, r),
    {
        let pareto = engine.pareto_over(&self.val_cols);
        let best = self.lineage.best_by_average(&pareto);
        proof {
            assert(pareto.describes(engine.ledger.matrix@, self.val_cols@));
            assert(self.lineage.is_best(pareto, best));
        }
        match best {
            None => Err(GepaError::NoFrontier),
            Some(b) => {
                let winner = Candidate::with_instruction(
                    self.lineage.entries[b].0.module_name.as_str(),
                    self.lineage.entries[b].0.instruction.as_str(),
                );
                if self.config.track_best_outputs && engine.budget_allows(self.val_cols.len()) {
                    let columns = rollouts::copy_indices(&self.val_cols);
                    self.phase = GepaPhase::Outputs { best: b };
                    Ok(GepaAction::CollectOutputs { columns, winner })
                } else {
                    self.phase = GepaPhase::Done { best: b };
                    Ok(GepaAction::Install { winner })
                }
            },
        }
    }

    /// Counts the runs that collected the outputs, and ends the run.
    pub fn on_outputs_collected(&mut self, engine: &mut Engine) -> (r: GepaAction)
        requires
            old(self).wf(),
            old(self).phase is Outputs,
            old(engine).wf(),
        ensures
            final(self).wf(),
            final(engine).wf(),
            *final(engine) == old(engine).charged(
                old(self).val_cols@.len() as usize,
                old(self).val_cols@.len() as usize,
            ),
            *final(self) == old(self).with_phase(
                GepaPhase::Done { best: old(self).phase->Outputs_best },
            ),
            r matches GepaAction::Install { winner } && winner.wf() && winner@ == trial::single(
                old(self).lineage.entries@[old(self).phase->Outputs_best as int].0.module_name@,
                old(self).lineage.entries@[old(self).phase->Outputs_best as int].0.instruction@,
            ),
    {
        match self.phase {
            GepaPhase::Outputs { best } => {
                let n = self.val_cols.len();
                engine.charge(n, n);
                let winner = Candidate::with_instruction(
                    self.lineage.entries[best].0.module_name.as_str(),
                    self.lineage.entries[best].0.instruction.as_str(),
                );
                self.phase = GepaPhase::Done { best };
                GepaAction::Install { winner }
            },
            _ => GepaAction::Draw,
        }
    }

    /// A generation begins with the evaluation of a parent on a minibatch.
    pub open spec fn begins_generation(
        before: GepaRun,
        engine_before: Engine,
        after: GepaRun,
        engine_after: Engine,
        lane: Lane,
        parent: usize,
        minibatch: Seq<usize>,
        r: Result<GepaAction, GepaError>,
    ) -> bool {
        let from = before.lineage.entries@[parent as int].0;
        exists|row: usize, begun: Result<BatchStep, EngineError>| #[trigger]
            trial::tried(
                engine_before,
                engine_after,
                lane,
                trial::single(from.module_name@, from.instruction@),
                Some(minibatch),
                row,
                begun,
            ) && match begun {
                Ok(BatchStep::Run(plan)) => after == before.with_phase(
                    GepaPhase::Parent { parent },
                ) && r == Ok::<GepaAction, GepaError>(GepaAction::Evaluate { plan }),
                Ok(BatchStep::BudgetExhausted { .. }) => GepaRun::finishes(
                    before,
                    after,
                    engine_after,
                    r,
                ),
                Err(e) => after == before && r == Err::<GepaAction, GepaError>(
                    GepaError::Engine(e),
                ),
            }
    }

    pub fn begin_generation(
        &mut self,
        engine: &mut Engine,
        lane: &Lane,
        parent: usize,
        minibatch: &[usize],
    ) -> (r: Result<GepaAction, GepaError>)
        requires
            old(self).wf(),
            parent < old(self).lineage.entries@.len(),
            old(self).generation < old(self).config.num_iterations,
            old(engine).wf(),
            old(engine).payloads@.len() < usize::MAX,
        ensures
            final(self).wf(),
            final(engine).wf(),
            GepaRun::begins_generation(
                *old(self),
                *old(engine),
                *final(self),
                *final(engine),
                *lane,
                parent,
                minibatch@,
                r,
            ),
    {
        let (row, begun) = trial::try_instruction(
            engine,
            lane,
            self.lineage.entries[parent].0.module_name.as_str(),
            self.lineage.entries[parent].0.instruction.as_str(),
            minibatch,
        );
        let ghost seen = begun;
        proof {
            let from = self.lineage.entries@[parent as int].0;
            assert(trial::tried(
                *old(engine),
                *engine,
                *lane,
                trial::single(from.module_name@, from.instruction@),
                Some(minibatch@),
                row,
                seen,
            ));
        }
        match begun {
            Ok(BatchStep::Run(plan)) => {
                self.phase = GepaPhase::Parent { parent };
                Ok(GepaAction::Evaluate { plan })
            },
            Ok(BatchStep::BudgetExhausted { .. }) => self.finish(engine),
            Err(e) => Err(GepaError::Engine(e)),
        }
    }

    /// The parent may be drawn: in proportion to how often it is among the best on the validation
    /// examples.
    pub open spec fn draws_parent(&self, engine: Engine, parent: usize) -> bool {
        exists|pareto: ParetoView, w: Seq<usize>, drawn: nat|
            pareto.describes(engine.ledger.matrix@, self.val_cols@) && #[trigger]
            self.lineage.weighs(pareto, w) && #[trigger] trial::picked(w, drawn, parent as int)
    }

    /// The wins over the validation examples fit a counter.
    pub open spec fn weights_fit(&self, engine: Engine) -> bool {
        forall|pareto: ParetoView| #[trigger]
            pareto.describes(engine.ledger.matrix@, self.val_cols@) ==> self.lineage.weight_fits(
                pareto,
            )
    }

    /// Draws a parent and a minibatch, and begins a generation with them; or ends the run
    /// when no generation is due.
    pub fn next_generation(&mut self, engine: &mut Engine, lane: &Lane, rng: &mut StdRng) -> (r:
        Result<GepaAction, GepaError>)
        requires
            old(self).wf(),
            old(self).phase is Ready,
            old(self).weights_fit(*old(engine)),
            old(engine).wf(),
            old(engine).payloads@.len() < usize::MAX,
        ensures
            final(self).wf(),
            final(engine).wf(),
            if !(old(self).generation < old(self).config.num_iterations
                && old(engine).ledger.config.budget.admits(old(engine).ledger.spend, 1)) {
                *final(engine) == *old(engine) && GepaRun::finishes(
                    *old(self),
                    *final(self),
                    *old(engine),
                    r,
                )
            } else if old(self).lineage.entries@.len() == 0 {
                *final(engine) == *old(engine) && *final(self) == *old(self) && r matches Err(
                    GepaError::NoParent,
                )
            } else {
                exists|parent: usize, minibatch: Seq<usize>| #[trigger]
                    GepaRun::begins_generation(
                        *old(self),
                        *old(engine),
                        *final(self),
                        *final(engine),
                        *lane,
                        parent,
                        minibatch,
                        r,
                    ) && parent < old(self).lineage.entries@.len() && old(self).draws_parent(
                        *old(engine),
                        parent,
                    ) && random::is_sample(
                        minibatch,
                        old(self).train_pool@,
                        GEPA::batch_size(
                            old(self).config.minibatch_size,
                            old(self).train_pool@.len(),
                        ) as usize,
                    )
            },
    {
        if !self.wants_generation(engine) {
            return self.finish(engine);
        }
        let pareto = engine.pareto_over(&self.val_cols);
        match self.lineage.sample_parent(&pareto, rng) {
            None => Err(GepaError::NoParent),
            Some(parent) => {
                proof {
                    let (w, drawn) = choose|w: Seq<usize>, drawn: nat| #[trigger]
                        self.lineage.weighs(pareto, w) && #[trigger] trial::picked(
                            w,
                            drawn,
                            parent as int,
                        );
                    assert(self.lineage.weighs(pareto, w) && trial::picked(
                        w,
                        drawn,
                        parent as int,
                    ));
                    assert(old(self).draws_parent(*old(engine), parent));
                }
                let wanted: usize = if self.config.minibatch_size == 0 {
                    1
                } else {
                    self.config.minibatch_size
                };
                let size: usize = if wanted < self.train_pool.len() {
                    wanted
                } else {
                    self.train_pool.len()
                };
                let minibatch = random::sample(rng, &self.train_pool, size);
                let ghost drawn = minibatch@;
                let result = self.begin_generation(engine, lane, parent, &minibatch);
                proof {
                    assert(GepaRun::begins_generation(
                        *old(self),
                        *old(engine),
                        *self,
                        *engine,
                        *lane,
                        parent,
                        drawn,
                        result,
                    ));
                }
                result
            },
        }
    }

    /// A child is evaluated on the validation examples.
    pub open spec fn tries_child(
        before: GepaRun,
        engine_before: Engine,
        after: GepaRun,
        engine_after: Engine,
        lane: Lane,
        parent: usize,
        instruction: Seq<char>,
        reflection_calls: usize,
        r: Result<GepaAction, GepaError>,
    ) -> bool {
        let from = before.lineage.entries@[parent as int].0;
        let child = GepaView {
            id: 0,
            instruction,
            module_name: from.module_name@,
            example_scores: Seq::empty(),
            average: 0,
            parent_id: Some(from.id),
            generation: (before.generation + 1) as usize,
        };
        exists|row: usize, begun: Result<BatchStep, EngineError>| #[trigger]
            trial::tried(
                engine_before.charged(0, reflection_calls),
                engine_after,
                lane,
                trial::single(from.module_name@, instruction),
                Some(before.val_cols@),
                row,
                begun,
            ) && match begun {
                Ok(BatchStep::Run(plan)) => {
                    &&& after == before.with_phase(after.phase)
                    &&& after.phase matches GepaPhase::Child { child: c, row: at } && c@ == child
                        && at == row
                    &&& r == Ok::<GepaAction, GepaError>(GepaAction::Evaluate { plan })
                },
                Ok(BatchStep::BudgetExhausted { .. }) => GepaRun::finishes(
                    before,
                    after,
                    engine_after,
                    r,
                ),
                Err(e) => after == before && r == Err::<GepaAction, GepaError>(
                    GepaError::Engine(e),
                ),
            }
    }

    fn try_child(
        &mut self,
        engine: &mut Engine,
        lane: &Lane,
        parent: usize,
        instruction: String,
        reflection_calls: usize,
    ) -> (r: Result<GepaAction, GepaError>)
        requires
            old(self).wf(),
            parent < old(self).lineage.entries@.len(),
            old(self).generation < old(self).config.num_iterations,
            old(engine).wf(),
            old(engine).payloads@.len() < usize::MAX,
        ensures
            final(self).wf(),
            final(engine).wf(),
            GepaRun::tries_child(
                *old(self),
                *old(engine),
                *final(self),
                *final(engine),
                *lane,
                parent,
                instruction@,
                reflection_calls,
                r,
            ),
    {
        engine.charge(0, reflection_calls);
        let ghost charged = *engine;
        let child = self.lineage.entries[parent].0.mutate(instruction, self.generation + 1);
        let (row, begun) = trial::try_instruction(
            engine,
            lane,
            child.module_name.as_str(),
            child.instruction.as_str(),
            &self.val_cols,
        );
        let ghost seen = begun;
        proof {
            let from = self.lineage.entries@[parent as int].0;
            assert(trial::tried(
                old(engine).charged(0, reflection_calls),
                *engine,
                *lane,
                trial::single(from.module_name@, instruction@),
                Some(self.val_cols@),
                row,
                seen,
            ));
        }
        match begun {
            Ok(BatchStep::Run(plan)) => {
                self.phase = GepaPhase::Child { child, row };
                Ok(GepaAction::Evaluate { plan })
            },
            Ok(BatchStep::BudgetExhausted { .. }) => self.finish(engine),
            Err(e) => Err(GepaError::Engine(e)),
        }
    }

    /// The text that a reflecting model reads of the parent's rollouts.
    pub open spec fn reflection_feedback(score: Seq<char>, feedback: Seq<char>) -> Seq<char> {
        "Parent average score: "@ + score + "\n"@ + feedback
    }

    /// The fields of the module, nothing when it is no leaf.
    pub open spec fn task_description(&self, module_name: Seq<char>) -> Seq<char> {
        let at = target::leaf_index(self.leaves@, module_name, 0);
        if at < self.leaves@.len() {
            self.leaves@[at].schema_text()
        } else {
            Seq::empty()
        }
    }

    /// What follows the evaluation of a parent.
    pub open spec fn after_parent(
        before: GepaRun,
        engine_before: Engine,
        after: GepaRun,
        engine_after: Engine,
        lane: Lane,
        eval: CandidateEval,
        mean: Mean,
        r: Result<GepaAction, GepaError>,
    ) -> bool {
        let parent = before.phase->Parent_parent;
        let from = before.lineage.entries@[parent as int].0;
        let feedback = text::trim_end(
            summary::rollouts_text(eval.rollouts@, from.module_name@, eval.rollouts@.len()),
        );
        if !trial::all_have_feedback(eval.rollouts@) {
            &&& after == before
            &&& engine_after == engine_before
            &&& r matches Err(GepaError::FeedbackMissing { module_name, generation })
                && module_name@ == from.module_name@ && generation == before.generation
        } else if !engine_before.ledger.config.budget.admits(
            engine_before.ledger.spend,
            before.val_cols@.len() as usize,
        ) {
            engine_after == engine_before && GepaRun::finishes(before, after, engine_before, r)
        } else if before.config.reflects {
            &&& engine_after == engine_before
            &&& after == before.with_phase(after.phase)
            &&& after.phase matches GepaPhase::Reflecting { parent: p, feedback: f, score: s } && p
                == parent && f@ == feedback && s == mean
            &&& r matches Ok(GepaAction::Reflect { prompt }) && prompt.task_description@
                == before.task_description(from.module_name@) && prompt.current_instruction@
                == from.instruction@ && prompt.execution_feedback@ == GepaRun::reflection_feedback(
                mean.text@,
                feedback,
            )
        } else {
            GepaRun::tries_child(
                before,
                engine_before,
                after,
                engine_after,
                lane,
                parent,
                concat_instruction(
                    from.instruction@,
                    feedback,
                    mean.text@,
                    before.generation as nat,
                ),
                0,
                r,
            )
        }
    }

    /// Takes the evaluation of a parent: the feedback on it becomes a child.
    pub fn on_parent_evaluated(
        &mut self,
        engine: &mut Engine,
        lane: &Lane,
        eval: &CandidateEval,
        mean: Mean,
    ) -> (r: Result<GepaAction, GepaError>)
        requires
            old(self).wf(),
            old(self).phase is Parent,
            old(engine).wf(),
            old(engine).payloads@.len() < usize::MAX,
        ensures
            final(self).wf(),
            final(engine).wf(),
            GepaRun::after_parent(
                *old(self),
                *old(engine),
                *final(self),
                *final(engine),
                *lane,
                *eval,
                mean,
                r,
            ),
    {
        match self.phase {
            GepaPhase::Parent { parent } => {
                let module_name = self.lineage.entries[parent].0.module_name.clone();
                let instruction = self.lineage.entries[parent].0.instruction.clone();
                if !trial::has_all_feedback(eval) {
                    return Err(
                        GepaError::FeedbackMissing { module_name, generation: self.generation },
                    );
                }
                let feedback = summary::summarize_feedback(module_name.as_str(), eval);
                if !engine.budget_allows(self.val_cols.len()) {
                    return self.finish(engine);
                }
                if self.config.reflects {
                    let task_description = match target::find_leaf(
                        &self.leaves,
                        module_name.as_str(),
                    ) {
                        Some(i) => self.leaves[i].schema_for_reflection(),
                        None => String::new(),
                    };
                    let mut execution_feedback = "Parent average score: ".to_owned();
                    execution_feedback.append(mean.text.as_str());
                    execution_feedback.append("\n");
                    execution_feedback.append(feedback.as_str());
                    self.phase = GepaPhase::Reflecting { parent, feedback, score: mean };
                    Ok(
                        GepaAction::Reflect {
                            prompt: ReflectOnInstruction {
                                task_description,
                                current_instruction: instruction,
                                execution_feedback,
                            },
                        },
                    )
                } else {
                    let child = GEPA::concat_child_instruction(
                        instruction.as_str(),
                        feedback.as_str(),
                        mean.text.as_str(),
                        self.generation,
                    );
                    self.try_child(engine, lane, parent, child, 0)
                }
            },
            _ => Ok(GepaAction::Draw),
        }
    }

    /// The instruction that a reply stands for: what it says, or the concatenation when the
    /// call failed or said nothing.
    pub open spec fn reflected(&self, reply: Option<Seq<char>>) -> Seq<char> {
        let from = self.lineage.entries@[self.phase->Reflecting_parent as int].0;
        match reply {
            Some(text) => if text::trim(text).len() > 0 {
                text::trim(text)
            } else {
                concat_instruction(
                    from.instruction@,
                    self.phase->Reflecting_feedback@,
                    self.phase->Reflecting_score.text@,
                    self.generation as nat,
                )
            },
            None => concat_instruction(
                from.instruction@,
                self.phase->Reflecting_feedback@,
                self.phase->Reflecting_score.text@,
                self.generation as nat,
            ),
        }
    }

    /// Takes the reply of the reflecting model, `None` when the call failed. Either way one
    /// model call is charged.
    pub fn on_reflected(&mut self, engine: &mut Engine, lane: &Lane, reply: Option<String>) -> (r:
        Result<GepaAction, GepaError>)
        requires
            old(self).wf(),
            old(self).phase is Reflecting,
            old(engine).wf(),
            old(engine).payloads@.len() < usize::MAX,
        ensures
            final(self).wf(),
            final(engine).wf(),
            GepaRun::tries_child(
                *old(self),
                *old(engine),
                *final(self),
                *final(engine),
                *lane,
                old(self).phase->Reflecting_parent,
                old(self).reflected(text::opt_view(reply)),
                1,
                r,
            ),
    {
        let parent: usize = match &self.phase {
            GepaPhase::Reflecting { parent, .. } => *parent,
            _ => 0,
        };
        let improved = match &reply {
            Some(text) => text::trim_str(text.as_str()),
            None => String::new(),
        };
        let instruction = if !improved.as_str().is_empty() {
            improved
        } else {
            match &self.phase {
                GepaPhase::Reflecting { parent: _, feedback, score } => {
                    GEPA::concat_child_instruction(
                        self.lineage.entries[parent].0.instruction.as_str(),
                        feedback.as_str(),
                        score.text.as_str(),
                        self.generation,
                    )
                },
                _ => String::new(),
            }
        };
        self.try_child(engine, lane, parent, instruction, 1)
    }

    /// What the statistics gain from a generation.
    pub open spec fn recorded(
        before: GepaRun,
        after: GepaRun,
        lineage: Lineage,
        engine: Engine,
    ) -> bool {
        if before.config.track_stats {
            exists|pareto: ParetoView, best: Option<usize>| #[trigger]
                pareto.describes(engine.ledger.matrix@, before.val_cols@) && #[trigger]
                lineage.is_best(pareto, best) && {
                    &&& after.all_candidates@.len() == before.all_candidates@.len() + 1
                    &&& after.all_candidates@.drop_last() == before.all_candidates@
                    &&& after.all_candidates@.last()@ == lineage.entries@.last().0@
                    &&& after.evolution_history@ == before.evolution_history@.push(
                        (
                            before.generation,
                            match best {
                                Some(b) => lineage.entries@[b as int].0.average,
                                None => 0,
                            },
                        ),
                    )
                    &&& after.frontier_history@ == before.frontier_history@.push(
                        matrix::coverage_statistics(
                            pareto.best@,
                            matrix::positive(pareto.wins@, pareto.wins@.len()),
                        ),
                    )
                }
        } else {
            &&& after.all_candidates == before.all_candidates
            &&& after.evolution_history == before.evolution_history
            &&& after.frontier_history == before.frontier_history
        }
    }

    /// Takes the evaluation of a child: it joins the lineage, and the next generation is due.
    pub fn on_child_evaluated(&mut self, engine: &Engine, eval: &CandidateEval, average: i64) -> (r:
        Result<GepaAction, GepaError>)
        requires
            old(self).wf(),
            old(self).phase is Child,
            engine.wf(),
        ensures
            final(self).wf(),
            if trial::all_have_feedback(eval.rollouts@) {
                &&& r == Ok::<GepaAction, GepaError>(GepaAction::Draw)
                &&& final(self).phase is Ready
                &&& final(self).generation == old(self).generation + 1
                &&& final(self).config == old(self).config
                &&& final(self).leaves == old(self).leaves
                &&& final(self).val_cols == old(self).val_cols
                &&& final(self).train_pool == old(self).train_pool
                &&& final(self).lineage.entries@.len() == old(self).lineage.entries@.len() + 1
                &&& final(self).lineage.entries@.drop_last() == old(self).lineage.entries@
                &&& entered(
                    final(self).lineage.entries@.last(),
                    old(self).phase->child@,
                    old(self).lineage.entries@.len() as int,
                    old(self).phase->Child_row,
                    rollouts::scores_of(eval.rollouts@),
                    average,
                )
                &&& GepaRun::recorded(*old(self), *final(self), final(self).lineage, *engine)
            } else {
                &&& *final(self) == *old(self)
                &&& r matches Err(GepaError::FeedbackMissing { module_name, generation })
                    && module_name@ == old(self).phase->child.module_name@ && generation
                    == old(self).generation + 1
            },
    {
        if !trial::has_all_feedback(eval) {
            let module_name = match &self.phase {
                GepaPhase::Child { child, .. } => child.module_name.clone(),
                _ => String::new(),
            };
            return Err(
                GepaError::FeedbackMissing { module_name, generation: self.generation + 1 },
            );
        }
        let mut phase = GepaPhase::Ready;
        std::mem::swap(&mut phase, &mut self.phase);
        match phase {
            GepaPhase::Child { child, row } => {
                self.lineage.add(child, row, eval, average);
                if self.config.track_stats {
                    let last = self.lineage.entries.len() - 1;
                    let copy = self.lineage.entries[last].0.clone();
                    let ghost candidates_before = self.all_candidates@;
                    self.all_candidates.push(copy);
                    proof {
                        assert(self.all_candidates@.drop_last() =~= candidates_before);
                    }
                    let pareto = engine.pareto_over(&self.val_cols);
                    let best = self.lineage.best_by_average(&pareto);
                    let best_average: i64 = match best {
                        Some(b) => self.lineage.entries[b].0.average,
                        None => 0,
                    };
                    self.evolution_history.push((self.generation, best_average));
                    self.frontier_history.push(pareto.statistics());
                    proof {
                        assert(pareto.describes(engine.ledger.matrix@, self.val_cols@));
                        assert(self.lineage.is_best(pareto, best));
                    }
                }
                self.generation = self.generation + 1;
                Ok(GepaAction::Draw)
            },
            _ => Ok(GepaAction::Draw),
        }
    }
}

/// A run that a metric ends early has installed nothing: nothing but the end of a run asks for
/// an installation.
pub proof fn seeding_installs_nothing(
    before: GepaRun,
    engine_before: Engine,
    after: GepaRun,
    engine_after: Engine,
    lane: Lane,
    leaf: usize,
    r: Result<GepaAction, GepaError>,
)
    requires
        GepaRun::seeds(before, engine_before, after, engine_after, lane, leaf, r),
    ensures
        !(r matches Ok(GepaAction::Install { .. })),
{
}

proof fn lemma_finished_evaluates_nothing(
    before: GepaRun,
    after: GepaRun,
    engine: Engine,
    r: Result<GepaAction, GepaError>,
)
    requires
        GepaRun::finishes(before, after, engine, r),
    ensures
        !(r matches Ok(GepaAction::Evaluate { .. })),
{
}

/// What is known of a child that is tried.
#[verifier::rlimit(40)]
proof fn lemma_child_is_tried(
    before: GepaRun,
    engine_before: Engine,
    after: GepaRun,
    engine_after: Engine,
    lane: Lane,
    parent: usize,
    instruction: Seq<char>,
    calls: usize,
    r: Result<GepaAction, GepaError>,
)
    requires
        before.generation < usize::MAX,
        GepaRun::tries_child(
            before,
            engine_before,
            after,
            engine_after,
            lane,
            parent,
            instruction,
            calls,
            r,
        ),
    ensures
        ({
            let from = before.lineage.entries@[parent as int].0;
            &&& exists|c: Candidate, row: int|
                #![trigger c.content_hash(), engine_after.ledger.hashes@[row]]
                c.wf() && 0 <= row < engine_after.payloads@.len() && c@.dom()
                    == set![from.module_name@] && c@[from.module_name@].instruction == Some(
                    instruction,
                ) && c@[from.module_name@].demos is None && !c@[from.module_name@].clear_instruction
                    && engine_after.ledger.hashes@[row] == c.content_hash() && (r matches Ok(
                    GepaAction::Evaluate { plan },
                ) ==> row == plan.candidates@[0])
            &&& engine_after.payloads@.len() > engine_before.payloads@.len() ==> {
                let content = engine_after.payloads@.last()->candidate@;
                &&& content.dom() == set![from.module_name@]
                &&& content[from.module_name@].instruction == Some(instruction)
            }
            &&& r matches Ok(GepaAction::Evaluate { plan }) ==> {
                &&& after.phase is Child
                &&& after.phase->child.instruction@ == instruction
                &&& after.phase->child.module_name@ == from.module_name@
                &&& after.phase->child.parent_id == Some(from.id)
                &&& after.phase->child.generation == before.generation + 1
                &&& plan.candidates@ == seq![after.phase->Child_row]
                &&& plan.indices@ == before.val_cols@
            }
            &&& engine_after.ledger.spend.metric_calls == engine_before.ledger.spend.metric_calls
            &&& engine_before.ledger.spend.lm_calls + calls <= usize::MAX
                ==> engine_after.ledger.spend.lm_calls == engine_before.ledger.spend.lm_calls
                + calls
        }),
{
    let from = before.lineage.entries@[parent as int].0;
    let content = trial::single(from.module_name@, instruction);
    let charged = engine_before.charged(0, calls);
    let (row, begun) = choose|row: usize, begun: Result<BatchStep, EngineError>| #[trigger]
        trial::tried(
            charged,
            engine_after,
            lane,
            content,
            Some(before.val_cols@),
            row,
            begun,
        ) && match begun {
            Ok(BatchStep::Run(plan)) => {
                &&& after == before.with_phase(after.phase)
                &&& after.phase matches GepaPhase::Child { child: c, row: at } && c@ == (
                GepaView {
                    id: 0,
                    instruction,
                    module_name: from.module_name@,
                    example_scores: Seq::empty(),
                    average: 0,
                    parent_id: Some(from.id),
                    generation: (before.generation + 1) as usize,
                }) && at == row
                &&& r == Ok::<GepaAction, GepaError>(GepaAction::Evaluate { plan })
            },
            Ok(BatchStep::BudgetExhausted { .. }) => GepaRun::finishes(
                before,
                after,
                engine_after,
                r,
            ),
            Err(e) => after == before && r == Err::<GepaAction, GepaError>(GepaError::Engine(e)),
        };
    trial::lemma_tried(
        charged,
        engine_after,
        lane,
        content,
        Some(before.val_cols@),
        row,
        begun,
    );
    let c = choose|c: Candidate| #[trigger]
        c.wf() && c@ == content && engine_after.ledger.hashes@[row as int] == c.content_hash();
    assert(content.dom() =~= set![from.module_name@]);
    if begun matches Ok(BatchStep::BudgetExhausted { .. }) {
        lemma_finished_evaluates_nothing(before, after, engine_after, r);
    }
    assert(r matches Ok(GepaAction::Evaluate { plan }) ==> plan.candidates@ == seq![row]);
    assert(engine_after.ledger.hashes@[row as int] == c.content_hash());
}

/// What the reflecting model replies, without white space around it, is the instruction of the child
/// that is registered and evaluated on the validation examples, for the module of its parent. The
/// call of the model is counted.
pub proof fn replies_become_the_instruction_of_the_child(
    run: &mut GepaRun,
    engine: &mut Engine,
    lane: &Lane,
    reply: String,
    r: Result<GepaAction, GepaError>,
)
    requires
        old(run).wf(),
        old(run).phase is Reflecting,
        old(engine).wf(),
        text::trim(reply@).len() > 0,
        call_ensures(GepaRun::on_reflected, (run, engine, lane, Some(reply)), r),
    ensures
        ({
            let parent =
                old(run).lineage.entries@[old(run).phase->Reflecting_parent as int].0;
            &&& exists|c: Candidate, row: int|
                #![trigger c.content_hash(), final(engine).ledger.hashes@[row]]
                c.wf() && 0 <= row < final(engine).payloads@.len() && c@.dom()
                    == set![parent.module_name@] && c@[parent.module_name@].instruction == Some(
                    text::trim(reply@),
                ) && final(engine).ledger.hashes@[row] == c.content_hash() && (r matches Ok(
                    GepaAction::Evaluate { plan },
                ) ==> row == plan.candidates@[0])
            &&& final(engine).payloads@.len() > old(engine).payloads@.len()
                ==> final(engine).payloads@.last()->candidate@.dom() == set![parent.module_name@]
                && final(engine).payloads@.last()->candidate@[parent.module_name@].instruction
                == Some(text::trim(reply@))
            &&& r matches Ok(GepaAction::Evaluate { plan }) ==> {
                &&& final(run).phase is Child
                &&& final(run).phase->child.instruction@ == text::trim(reply@)
                &&& final(run).phase->child.module_name@ == parent.module_name@
                &&& final(run).phase->child.parent_id == Some(parent.id)
                &&& final(run).phase->child.generation == old(run).generation + 1
                &&& plan.candidates@ == seq![final(run).phase->Child_row]
                &&& plan.indices@ == old(run).val_cols@
            }
            &&& old(engine).ledger.spend.lm_calls < usize::MAX
                ==> final(engine).ledger.spend.lm_calls == old(engine).ledger.spend.lm_calls + 1
        }),
{
    lemma_child_is_tried(
        *old(run),
        *old(engine),
        *final(run),
        *final(engine),
        *lane,
        old(run).phase->Reflecting_parent,
        old(run).reflected(Some(reply@)),
        1,
        r,
    );
}

proof fn lemma_concatenation_holds(
    parent: Seq<char>,
    feedback: Seq<char>,
    score: Seq<char>,
    generation: nat,
)
    ensures
        ({
            let all = concat_instruction(parent, feedback, score, generation);
            &&& text::has_prefix(all, parent)
            &&& all.len() > parent.len()
            &&& feedback.len() <= 2000 ==> text::has_text(all, feedback)
            &&& feedback.len() > 2000 ==> text::has_text(all, feedback.take(2000))
            &&& text::has_text(all, score)
        }),
{
    reveal_strlit("\n\n[GEPA gen ");
    let head = parent + "\n\n[GEPA gen "@ + text::decimal(generation + 1)
        + "] Improve based on feedback:\n"@;
    let cut = text::truncated(feedback, CONCAT_FEEDBACK_BUDGET as nat);
    let all = concat_instruction(parent, feedback, score, generation);
    let tail = "\n(Parent score "@ + score + ")"@;
    text_laws::lemma_grouped(head + cut, "\n(Parent score "@, score);
    text_laws::lemma_grouped(head + cut, "\n(Parent score "@ + score, ")"@);
    assert(all == head + cut + tail);
    text_laws::lemma_inside(head, cut, tail);
    if feedback.len() > 2000 {
        text_laws::lemma_ends(feedback.take(2000), "..."@);
        text_laws::lemma_within(all, cut, feedback.take(2000));
    }
    text_laws::lemma_inside(head + cut + "\n(Parent score "@, score, ")"@);
    assert(all.subrange(0, parent.len() as int) =~= parent);
}

/// Without a reply the child keeps the instruction of its parent, and gains the feedback on it, as
/// far as that is allowed, and its score.
pub proof fn children_without_a_reply_keep_the_instruction_of_their_parent(
    run: &mut GepaRun,
    engine: &mut Engine,
    lane: &Lane,
    reply: Option<String>,
    r: Result<GepaAction, GepaError>,
)
    requires
        old(run).wf(),
        old(run).phase is Reflecting,
        old(engine).wf(),
        reply matches Some(t) ==> text::trim(t@).len() == 0,
        call_ensures(GepaRun::on_reflected, (run, engine, lane, reply), r),
        r matches Ok(GepaAction::Evaluate { .. }),
    ensures
        ({
            let parent =
                old(run).lineage.entries@[old(run).phase->Reflecting_parent as int].0;
            let feedback = old(run).phase->Reflecting_feedback@;
            let child = final(run).phase->child;
            &&& final(run).phase is Child
            &&& text::has_prefix(child.instruction@, parent.instruction@)
            &&& child.instruction@.len() > parent.instruction@.len()
            &&& feedback.len() <= 2000 ==> text::has_text(child.instruction@, feedback)
            &&& feedback.len() > 2000 ==> text::has_text(child.instruction@, feedback.take(2000))
            &&& text::has_text(child.instruction@, old(run).phase->Reflecting_score.text@)
            &&& child.module_name@ == parent.module_name@
        }),
{
    let parent = old(run).lineage.entries@[old(run).phase->Reflecting_parent as int].0;
    lemma_child_is_tried(
        *old(run),
        *old(engine),
        *final(run),
        *final(engine),
        *lane,
        old(run).phase->Reflecting_parent,
        old(run).reflected(text::opt_view(reply)),
        1,
        r,
    );
    lemma_concatenation_holds(
        parent.instruction@,
        old(run).phase->Reflecting_feedback@,
        old(run).phase->Reflecting_score.text@,
        old(run).generation as nat,
    );
}

/// The reflecting model is asked about the parent that was evaluated: it reads the parent's own
/// instruction, its score, and the feedback on every one of its rollouts.
pub proof fn reflection_reads_the_parent(
    run: &mut GepaRun,
    engine: &mut Engine,
    lane: &Lane,
    eval: &CandidateEval,
    mean: Mean,
    prompt: ReflectOnInstruction,
    i: int,
)
    requires
        old(run).wf(),
        old(run).phase is Parent,
        old(engine).wf(),
        call_ensures(
            GepaRun::on_parent_evaluated,
            (run, engine, lane, eval, mean),
            Ok::<GepaAction, GepaError>(GepaAction::Reflect { prompt }),
        ),
    ensures
        ({
            let parent = old(run).lineage.entries@[old(run).phase->Parent_parent as int].0;
            &&& prompt.current_instruction@ == parent.instruction@
            &&& text::has_text(prompt.execution_feedback@, mean.text@)
            &&& text::has_suffix(
                prompt.execution_feedback@,
                final(run).phase->Reflecting_feedback@,
            )
            &&& final(run).phase is Reflecting
            &&& final(run).phase->Reflecting_parent == old(run).phase->Parent_parent
            &&& final(run).phase->Reflecting_score == mean
            &&& final(run).lineage == old(run).lineage
            &&& 0 <= i < eval.rollouts@.len() ==> (eval.rollouts@[i].eval.feedback matches Some(f)
                ==> text::has_text(prompt.execution_feedback@, text::trim_end(f@)))
        }),
{
    let feedback = final(run).phase->Reflecting_feedback@;
    text_laws::lemma_inside("Parent average score: "@, mean.text@, "\n"@ + feedback);
    text_laws::lemma_grouped("Parent average score: "@ + mean.text@, "\n"@, feedback);
    text_laws::lemma_ends("Parent average score: "@ + mean.text@ + "\n"@, feedback);
    if 0 <= i < eval.rollouts@.len() {
        let parent = old(run).lineage.entries@[old(run).phase->Parent_parent as int].0;
        summary::lemma_feedback_shown(eval.rollouts@, parent.module_name@, i);
        if let Some(f) = eval.rollouts@[i].eval.feedback {
            text_laws::lemma_within(prompt.execution_feedback@, feedback, text::trim_end(f@));
        }
    }
}

/// A child that was evaluated joins the lineage as it was tried, with its scores and their average,
/// behind the candidates before, which stay as they are.
pub proof fn evaluated_children_join_the_lineage(
    run: &mut GepaRun,
    engine: &Engine,
    eval: &CandidateEval,
    average: i64,
    r: Result<GepaAction, GepaError>,
    i: int,
)
    requires
        old(run).wf(),
        old(run).phase is Child,
        engine.wf(),
        forall|k: int|
            0 <= k < eval.rollouts@.len() ==> (#[trigger] eval.rollouts@[k]).eval.feedback is Some,
        call_ensures(GepaRun::on_child_evaluated, (run, engine, eval, average), r),
    ensures
        ({
            let before = old(run).lineage.entries@;
            let after = final(run).lineage.entries@;
            let child = old(run).phase->child;
            &&& r matches Ok(GepaAction::Draw)
            &&& after.len() == before.len() + 1
            &&& 0 <= i < before.len() ==> after[i] == before[i]
            &&& after.last().0.instruction@ == child.instruction@
            &&& after.last().0.module_name@ == child.module_name@
            &&& after.last().0.parent_id == child.parent_id
            &&& after.last().0.generation == child.generation
            &&& after.last().0.average == average
            &&& after.last().1 == old(run).phase->Child_row
            &&& after.last().0.example_scores@.len() == eval.rollouts@.len()
            &&& 0 <= i < eval.rollouts@.len() ==> after.last().0.example_scores@[i]
                == eval.rollouts@[i].eval.score
            &&& final(run).generation == old(run).generation + 1
        }),
{
    assert(trial::all_have_feedback(eval.rollouts@));
    let before = old(run).lineage.entries@;
    let after = final(run).lineage.entries@;
    if 0 <= i < before.len() {
        assert(after.drop_last()[i] == before[i]);
    }
    assert(after.last().0@.example_scores == rollouts::scores_of(eval.rollouts@));
}

/// What is installed is the instruction of a candidate that is among the best on some validation
/// example, for its own module, and no other such candidate has a higher average.
pub proof fn the_best_of_the_frontier_is_installed(
    run: &mut GepaRun,
    engine: &Engine,
    winner: Candidate,
)
    requires
        old(run).wf(),
        engine.wf(),
        call_ensures(
            GepaRun::finish,
            (run, engine),
            Ok::<GepaAction, GepaError>(GepaAction::Install { winner }),
        ),
    ensures
        exists|pareto: ParetoView, b: int|
            #![trigger pareto.describes(engine.ledger.matrix@, old(run).val_cols@), old(run).lineage.entries@[b]]
            pareto.describes(engine.ledger.matrix@, old(run).val_cols@) && 0 <= b < old(run).lineage.entries@.len() && {
                let best = old(run).lineage.entries@[b];
                &&& pareto.wins_of(best.1 as int) > 0
                &&& winner@.dom() == set![best.0.module_name@]
                &&& winner@[best.0.module_name@].instruction == Some(best.0.instruction@)
                &&& forall|j: int|
                    0 <= j < old(run).lineage.entries@.len() && pareto.wins_of(
                        (#[trigger] old(run).lineage.entries@[j]).1 as int,
                    ) > 0 ==> old(run).lineage.entries@[j].0.average <= best.0.average
            },
{
    let (pareto, best) = choose|pareto: ParetoView, best: Option<usize>| #[trigger]
        pareto.describes(engine.ledger.matrix@, old(run).val_cols@) && #[trigger]
        old(run).lineage.is_best(pareto, best) && match best {
            None => false,
            Some(b) => {
                let top = old(run).lineage.entries@[b as int].0;
                winner@ == trial::single(top.module_name@, top.instruction@)
            },
        };
    let b = best->0 as int;
    let top = old(run).lineage.entries@[b];
    assert(old(run).lineage.on_frontier(pareto, b));
    assert(winner@.dom() =~= set![top.0.module_name@]);
    assert forall|j: int|
        0 <= j < old(run).lineage.entries@.len() && pareto.wins_of(
            (#[trigger] old(run).lineage.entries@[j]).1 as int,
        ) > 0 implies old(run).lineage.entries@[j].0.average <= top.0.average by {
        assert(old(run).lineage.on_frontier(pareto, j));
    }
}

/// Seeding evaluates the instruction that a leaf starts from, under the name of the leaf, on the
/// validation examples.
pub proof fn seeds_are_the_instructions_of_the_leaves(
    run: &mut GepaRun,
    engine: &mut Engine,
    lane: &Lane,
    leaf: usize,
    plan: BatchPlan,
)
    requires
        old(run).wf(),
        old(engine).wf(),
        leaf < old(run).leaves@.len(),
        call_ensures(
            GepaRun::seed,
            (run, engine, lane, leaf),
            Ok::<GepaAction, GepaError>(GepaAction::Evaluate { plan }),
        ),
    ensures
        ({
            let info = old(run).leaves@[leaf as int];
            &&& final(engine).payloads@.len() > old(engine).payloads@.len()
                ==> final(engine).payloads@.last()->candidate@.dom() == set![info.name@]
                && final(engine).payloads@.last()->candidate@[info.name@].instruction == Some(
                info.instruction@,
            )
            &&& plan.indices@ == old(run).val_cols@
            &&& final(run).phase is Seeding
            &&& final(run).phase->leaf == leaf
            &&& plan.candidates@ == seq![final(run).phase->Seeding_row]
        }),
{
    let info = old(run).leaves@[leaf as int];
    let content = trial::single(info.name@, info.instruction@);
    let (row, begun) = choose|row: usize, begun: Result<BatchStep, EngineError>| #[trigger]
        trial::tried(
            *old(engine),
            *final(engine),
            *lane,
            content,
            Some(old(run).val_cols@),
            row,
            begun,
        ) && match begun {
            Ok(BatchStep::Run(p)) => *final(run) == old(run).with_phase(
                GepaPhase::Seeding { leaf, row },
            ) && p == plan,
            _ => false,
        };
    trial::lemma_tried(
        *old(engine),
        *final(engine),
        *lane,
        content,
        Some(old(run).val_cols@),
        row,
        begun,
    );
    assert(content.dom() =~= set![info.name@]);
}

/// A parent is evaluated with its own instruction, for its own predictor, on the minibatch.
pub proof fn parents_are_evaluated_as_they_are(
    run: &mut GepaRun,
    engine: &mut Engine,
    lane: &Lane,
    parent: usize,
    minibatch: &[usize],
    plan: BatchPlan,
)
    requires
        old(run).wf(),
        parent < old(run).lineage.entries@.len(),
        call_ensures(
            GepaRun::begin_generation,
            (run, engine, lane, parent, minibatch),
            Ok::<GepaAction, GepaError>(GepaAction::Evaluate { plan }),
        ),
        final(engine).payloads@.len() > old(engine).payloads@.len(),
    ensures
        plan.indices@ == minibatch@,
        final(engine).payloads@.last() is Params,
        ({
            let from = old(run).lineage.entries@[parent as int].0;
            let tried = final(engine).payloads@.last()->candidate@;
            &&& tried.dom().contains(from.module_name@)
            &&& tried[from.module_name@].instruction == Some(from.instruction@)
            &&& tried[from.module_name@].demos is None
            &&& forall|n: Seq<char>| #[trigger] tried.dom().contains(n) ==> n == from.module_name@
        }),
{
    let from = old(run).lineage.entries@[parent as int].0;
    let content = trial::single(from.module_name@, from.instruction@);
    let r = Ok::<GepaAction, GepaError>(GepaAction::Evaluate { plan });
    let (row, begun) = choose|row: usize, begun: Result<BatchStep, EngineError>| #[trigger]
        trial::tried(
            *old(engine),
            *final(engine),
            *lane,
            content,
            Some(minibatch@),
            row,
            begun,
        ) && match begun {
            Ok(BatchStep::Run(p)) => *final(run) == old(run).with_phase(
                GepaPhase::Parent { parent },
            ) && r == Ok::<GepaAction, GepaError>(GepaAction::Evaluate { plan: p }),
            Ok(BatchStep::BudgetExhausted { .. }) => GepaRun::finishes(
                *old(run),
                *final(run),
                *final(engine),
                r,
            ),
            Err(e) => *final(run) == *old(run) && r == Err::<GepaAction, GepaError>(
                GepaError::Engine(e),
            ),
        };
    trial::lemma_tried(
        *old(engine),
        *final(engine),
        *lane,
        content,
        Some(minibatch@),
        row,
        begun,
    );
    if begun matches Ok(BatchStep::BudgetExhausted { .. }) {
        lemma_finished_evaluates_nothing(*old(run), *final(run), *final(engine), r);
    }
}

/// A seed that was evaluated joins the lineage with the instruction of its leaf and with the scores
/// that it got, behind those that are there.
pub proof fn evaluated_seeds_join_the_lineage(
    run: &mut GepaRun,
    engine: &mut Engine,
    lane: &Lane,
    eval: &CandidateEval,
    average: i64,
    r: Result<GepaAction, GepaError>,
    i: int,
)
    requires
        old(run).wf(),
        old(run).phase is Seeding,
        call_ensures(GepaRun::on_seed_evaluated, (run, engine, lane, eval, average), r),
        forall|k: int|
            0 <= k < eval.rollouts@.len() ==> (#[trigger] eval.rollouts@[k]).eval.feedback is Some,
    ensures
        final(run).lineage.entries@.len() == old(run).lineage.entries@.len() + 1,
        0 <= i < old(run).lineage.entries@.len() ==> final(run).lineage.entries@[i] == old(run).lineage.entries@[i],
        ({
            let leaf = old(run).leaves@[old(run).phase->leaf as int];
            let seed = final(run).lineage.entries@.last().0;
            &&& seed.instruction@ == leaf.instruction@
            &&& seed.module_name@ == leaf.name@
            &&& seed.parent_id is None
            &&& seed.average == average
            &&& seed.example_scores@.len() == eval.rollouts@.len()
            &&& 0 <= i < eval.rollouts@.len() ==> seed.example_scores@[i]
                == eval.rollouts@[i].eval.score
        }),
{
    assert(trial::all_have_feedback(eval.rollouts@));
    let leaf = old(run).phase->leaf;
    let info = old(run).leaves@[leaf as int];
    let mid = choose|mid: GepaRun| #[trigger]
        GepaRun::extended(
            *old(run),
            mid,
            GepaRun::seed_candidate(info),
            old(run).phase->Seeding_row,
            *eval,
            average,
        ) && GepaRun::seeds(
            mid,
            *old(engine),
            *final(run),
            *final(engine),
            *lane,
            (leaf + 1) as usize,
            r,
        );
    assert(final(run).lineage == mid.lineage);
    let all = mid.lineage.entries@;
    if 0 <= i < old(run).lineage.entries@.len() {
        assert(all.drop_last()[i] == all[i]);
    }
    let seed = all.last().0;
    assert(seed@.example_scores == seed.example_scores@);
    assert(seed@.instruction == seed.instruction@);
    assert(seed@.module_name == seed.module_name@);
}

/// A generation begins with a member of the lineage that wins some example where any of them does,
/// evaluated with its own instruction on examples of the training pool.
pub proof fn generations_begin_with_a_winner(
    run: &mut GepaRun,
    engine: &mut Engine,
    lane: &Lane,
    rng: &mut StdRng,
    plan: BatchPlan,
    i: int,
)
    requires
        old(run).wf(),
        old(run).phase is Ready,
        call_ensures(
            GepaRun::next_generation,
            (run, engine, lane, rng),
            Ok::<GepaAction, GepaError>(GepaAction::Evaluate { plan }),
        ),
    ensures
        old(run).generation < old(run).config.num_iterations,
        final(run).phase is Parent,
        final(run).phase->Parent_parent < old(run).lineage.entries@.len(),
        final(run).lineage == old(run).lineage,
        0 <= i < plan.indices@.len() ==> old(run).train_pool@.contains(plan.indices@[i]),
        final(engine).payloads@.len() > old(engine).payloads@.len() ==> ({
            let from = old(run).lineage.entries@[final(run).phase->Parent_parent as int].0;
            let tried = final(engine).payloads@.last();
            tried is Params && tried->candidate@.dom().contains(from.module_name@)
                && tried->candidate@[from.module_name@].instruction == Some(from.instruction@)
        }),
        exists|pareto: ParetoView| #[trigger]
            pareto.describes(old(engine).ledger.matrix@, old(run).val_cols@) && (
            pareto.wins_of(
                old(run).lineage.entries@[final(run).phase->Parent_parent as int].1 as int,
            ) > 0 || forall|k: int|
                0 <= k < old(run).lineage.entries@.len() ==> pareto.wins_of(
                    (#[trigger] old(run).lineage.entries@[k]).1 as int,
                ) == 0),
{
    let r = Ok::<GepaAction, GepaError>(GepaAction::Evaluate { plan });
    if !(old(run).generation < old(run).config.num_iterations
        && old(engine).ledger.config.budget.admits(old(engine).ledger.spend, 1)) {
        lemma_finished_evaluates_nothing(*old(run), *final(run), *old(engine), r);
    }
    let (parent, minibatch) = choose|parent: usize, minibatch: Seq<usize>| #[trigger]
        GepaRun::begins_generation(
            *old(run),
            *old(engine),
            *final(run),
            *final(engine),
            *lane,
            parent,
            minibatch,
            r,
        ) && parent < old(run).lineage.entries@.len() && old(run).draws_parent(
            *old(engine),
            parent,
        ) && random::is_sample(
            minibatch,
            old(run).train_pool@,
            GEPA::batch_size(old(run).config.minibatch_size, old(run).train_pool@.len()) as usize,
        );
    let from = old(run).lineage.entries@[parent as int].0;
    let content = trial::single(from.module_name@, from.instruction@);
    let (row, begun) = choose|row: usize, begun: Result<BatchStep, EngineError>| #[trigger]
        trial::tried(
            *old(engine),
            *final(engine),
            *lane,
            content,
            Some(minibatch),
            row,
            begun,
        ) && match begun {
            Ok(BatchStep::Run(p)) => *final(run) == old(run).with_phase(
                GepaPhase::Parent { parent },
            ) && r == Ok::<GepaAction, GepaError>(GepaAction::Evaluate { plan: p }),
            Ok(BatchStep::BudgetExhausted { .. }) => GepaRun::finishes(
                *old(run),
                *final(run),
                *final(engine),
                r,
            ),
            Err(e) => *final(run) == *old(run) && r == Err::<GepaAction, GepaError>(
                GepaError::Engine(e),
            ),
        };
    trial::lemma_tried(
        *old(engine),
        *final(engine),
        *lane,
        content,
        Some(minibatch),
        row,
        begun,
    );
    if begun matches Ok(BatchStep::BudgetExhausted { .. }) {
        lemma_finished_evaluates_nothing(*old(run), *final(run), *final(engine), r);
    }
    let at = choose|at: Seq<int>| random::drawn_at(minibatch, old(run).train_pool@, at);
    if 0 <= i < plan.indices@.len() {
        assert(old(run).train_pool@[at[i]] == minibatch[i]);
    }
    let (pareto, w, drawn) = choose|pareto: ParetoView, w: Seq<usize>, drawn: nat|
        pareto.describes(old(engine).ledger.matrix@, old(run).val_cols@) && #[trigger]
        old(run).lineage.weighs(pareto, w) && #[trigger] trial::picked(w, drawn, parent as int);
    assert(w[parent as int] == pareto.wins_of(old(run).lineage.entries@[parent as int].1 as int));
    if matrix::sum_of(w, w.len()) == 0 {
        assert forall|k: int| 0 <= k < old(run).lineage.entries@.len() implies pareto.wins_of(
            (#[trigger] old(run).lineage.entries@[k]).1 as int,
        ) == 0 by {
            trial::lemma_weight_counts(w, w.len(), k);
            assert(w[k] == pareto.wins_of(old(run).lineage.entries@[k].1 as int));
        }
    } else {
        trial::picked_has_weight(w, drawn, parent as int);
    }
}

/// Feedback that is missing is named by its predictor and generation, and what the engine said is
/// handed on.
pub proof fn missing_feedback_is_named(
    e: &GepaError,
    r: String,
    inner: &EngineError,
    said: String,
)
    requires
        call_ensures(GepaError::message, (e,), r),
        call_ensures(EngineError::message, (inner,), said),
    ensures
        *e matches GepaError::FeedbackMissing { module_name, generation } ==> text::has_text(
            r@,
            module_name@,
        ) && text::has_text(r@, "generation="@ + text::decimal(generation as nat)),
        *e == GepaError::Engine(*inner) ==> r@ == said@,
{
    if let GepaError::FeedbackMissing { module_name, generation } = *e {
        let head = "GEPA requires feedback for every evaluated example (module=`"@;
        let mid = "`, generation="@;
        let number = text::decimal(generation as nat);
        text_laws::lemma_grouped(head + module_name@, mid, number);
        text_laws::lemma_grouped(head + module_name@, mid + number, ")"@);
        text_laws::lemma_inside(head, module_name@, mid + number + ")"@);
        reveal_strlit("`, generation=");
        reveal_strlit("`, ");
        reveal_strlit("generation=");
        assert(mid =~= "`, "@ + "generation="@);
        text_laws::lemma_grouped("`, "@, "generation="@, number);
        text_laws::lemma_ends("`, "@, "generation="@ + number);
        text_laws::lemma_inside(head + module_name@, mid + number, ")"@);
        text_laws::lemma_within(r@, mid + number, "generation="@ + number);
    }
}

/// The limits of a search are those of its engine, and it evaluates with as many at a time as it
/// says, with one where it says none.
pub proof fn limits_are_those_of_the_search(g: &GEPA, r: EngineConfig)
    requires
        call_ensures(GEPA::engine_config, (g,), r),
    ensures
        r.budget.max_metric_calls == g.max_rollouts,
        r.budget.max_lm_calls == g.max_lm_calls,
        r.budget.max_tokens is None,
        r.concurrency >= 1,
        g.eval_concurrency > 0 ==> r.concurrency == g.eval_concurrency,
        g.eval_concurrency == 0 ==> r.concurrency == 1,
{
}

/// The history of a run tells the average of its best member after every generation, and its list of
/// candidates holds every one, where it is asked to keep them.
pub proof fn every_generation_is_written_down(
    run: &mut GepaRun,
    engine: &Engine,
    eval: &CandidateEval,
    average: i64,
    i: int,
)
    requires
        old(run).wf(),
        old(run).phase is Child,
        old(run).config.track_stats,
        call_ensures(
            GepaRun::on_child_evaluated,
            (run, engine, eval, average),
            Ok::<GepaAction, GepaError>(GepaAction::Draw),
        ),
    ensures
        final(run).evolution_history@.len() == old(run).evolution_history@.len() + 1,
        final(run).evolution_history@.last().0 == old(run).generation,
        0 <= i < old(run).evolution_history@.len() ==> final(run).evolution_history@[i]
            == old(run).evolution_history@[i],
        (exists|k: int|
            0 <= k < final(run).lineage.entries@.len() && (#[trigger] final(run).lineage.entries@[k]).0.average == final(run).evolution_history@.last().1)
            || final(run).evolution_history@.last().1 == 0,
        final(run).all_candidates@.len() == old(run).all_candidates@.len() + 1,
        final(run).all_candidates@.last().instruction@ == old(run).phase->child.instruction@,
        final(run).all_candidates@.last().average == average,
        final(run).frontier_history@.len() == old(run).frontier_history@.len() + 1,
{
    let lineage = final(run).lineage;
    let (pareto, best) = choose|pareto: ParetoView, best: Option<usize>| #[trigger]
        pareto.describes(engine.ledger.matrix@, old(run).val_cols@) && #[trigger] lineage.is_best(
            pareto,
            best,
        ) && {
            &&& final(run).all_candidates@.len() == old(run).all_candidates@.len() + 1
            &&& final(run).all_candidates@.drop_last() == old(run).all_candidates@
            &&& final(run).all_candidates@.last()@ == lineage.entries@.last().0@
            &&& final(run).evolution_history@ == old(run).evolution_history@.push(
                (
                    old(run).generation,
                    match best {
                        Some(b) => lineage.entries@[b as int].0.average,
                        None => 0,
                    },
                ),
            )
            &&& final(run).frontier_history@ == old(run).frontier_history@.push(
                matrix::coverage_statistics(
                    pareto.best@,
                    matrix::positive(pareto.wins@, pareto.wins@.len()),
                ),
            )
        };
    if let Some(b) = best {
        assert(lineage.on_frontier(pareto, b as int));
        assert(lineage.entries@[b as int].0.average == final(run).evolution_history@.last().1);
    }
    let told = final(run).all_candidates@.last();
    assert(told@.instruction == told.instruction@);
    assert(lineage.entries@.last().0@.instruction == old(run).phase->child@.instruction);
}

} // verus!
