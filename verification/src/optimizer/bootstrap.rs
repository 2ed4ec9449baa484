//! Demonstrations from one teacher pass: the run of the few-shot bootstrapper as steps between
//! evaluations.

use vstd::prelude::*;

use crate::json;
use crate::names;
use crate::optimizer::engine::{Candidate, SlotView, Spend};
use crate::optimizer::harvest;
use crate::optimizer::harvest::DemoCandidate;
use crate::optimizer::rollouts;
use crate::optimizer::rollouts::{
    BatchPlan,
    BatchStep,
    CandidateEval,
    Engine,
    EngineConfig,
    EngineError,
    Lane,
};
use crate::optimizer::target::LeafInfo;
use crate::optimizer::trial;
use crate::optimizer::OptimizerCommon;
use crate::text;
use crate::text_laws;
use crate::trace;

verus! {

/// The settings of the bootstrapper. `min_demo_score` is the key of the lowest score with which
/// a call becomes a demonstration.
#[derive(Clone, Copy, Debug, PartialEq, Eq, Structural)]
pub struct BootstrapFewShot {
    pub max_demos: usize,
    pub min_demo_score: i64,
    pub eval_concurrency: usize,
    pub max_metric_calls: Option<usize>,
    pub max_lm_calls: Option<usize>,
}

impl Default for BootstrapFewShot {
    fn default() -> (r: Self)
        ensures
            r == (BootstrapFewShot {
                max_demos: 4,
                min_demo_score: trace::FULL_SCORE,
                eval_concurrency: rollouts::DEFAULT_EVAL_CONCURRENCY,
                max_metric_calls: None,
                max_lm_calls: None,
            }),
    {
        BootstrapFewShot {
            max_demos: 4,
            min_demo_score: trace::FULL_SCORE,
            eval_concurrency: rollouts::DEFAULT_EVAL_CONCURRENCY,
            max_metric_calls: None,
            max_lm_calls: None,
        }
    }
}

/// What a run did. The scores are the keys of means.
#[derive(Debug)]
pub struct BootstrapReport {
    pub baseline_score: i64,
    pub candidate_score: Option<i64>,
    pub adopted: bool,
    pub demos_per_predictor: Vec<(String, usize)>,
    pub spend: Spend,
}

/// What the driver of a run does next.
#[derive(Debug)]
pub enum BootstrapAction {
    /// Run the pending rollouts of the plan, commit them, and hand back the evaluation.
    Evaluate { plan: BatchPlan },
    /// The run is over: install the winner, when there is one.
    Finish { report: BootstrapReport, winner: Option<Candidate> },
}

/// Why a run fails.
#[derive(Debug)]
pub enum BootstrapError {
    NoPredictors,
    BudgetTooSmall { needed: usize },
    Engine(EngineError),
}

impl BootstrapError {
    pub open spec fn text(&self) -> Seq<char> {
        match self {
            BootstrapError::NoPredictors => "no optimizable predictors found"@,
            BootstrapError::BudgetTooSmall { needed } =>
                "budget too small for the teacher pass ("@ + text::decimal(*needed as nat)
                + " rollouts needed)"@,
            BootstrapError::Engine(e) => e.text(),
        }
    }

    pub fn message(&self) -> (r: String)
        ensures
            r@ == self.text(),
    {
        match self {
            BootstrapError::NoPredictors => "no optimizable predictors found".to_owned(),
            BootstrapError::BudgetTooSmall { needed } => {
                let mut out = "budget too small for the teacher pass (".to_owned();
                text::push_decimal(&mut out, *needed as u64);
                out.append(" rollouts needed)");
                out
            },
            BootstrapError::Engine(e) => e.message(),
        }
    }
}

/// What a run waits for.
#[derive(Debug)]
pub enum BootstrapPhase {
    /// The teacher pass has to be begun.
    Fresh,
    /// The evaluation of the program as it is.
    Teacher,
    /// The evaluation of the candidate with the demos.
    Trial { candidate: Candidate },
    /// Nothing: the run is over.
    Done,
}

/// A run of the bootstrapper.
#[derive(Debug)]
pub struct BootstrapRun {
    pub config: BootstrapFewShot,
    pub baseline_score: i64,
    pub demos_per_predictor: Vec<(String, usize)>,
    pub phase: BootstrapPhase,
}

impl BootstrapFewShot {
    pub open spec fn common_spec(&self) -> OptimizerCommon {
        OptimizerCommon {
            eval_concurrency: self.eval_concurrency,
            max_metric_calls: self.max_metric_calls,
            max_lm_calls: self.max_lm_calls,
            cache_salt: 0,
            seed: None,
        }
    }

    pub fn common(&self) -> (r: OptimizerCommon)
        ensures
            r == self.common_spec(),
    {
        OptimizerCommon {
            eval_concurrency: self.eval_concurrency,
            max_metric_calls: self.max_metric_calls,
            max_lm_calls: self.max_lm_calls,
            cache_salt: 0,
            seed: None,
        }
    }

    pub fn engine_config(&self) -> (r: EngineConfig)
        ensures
            r == self.common_spec().engine_config_spec(),
    {
        self.common().engine_config()
    }

    /// The demos are those that the teacher pass gives.
    pub open spec fn harvested(&self, cands: Seq<DemoCandidate>, eval: CandidateEval) -> bool {
        let traces = harvest::traced(eval.rollouts@, eval.rollouts@.len());
        harvest::all_made_from(
            cands,
            harvest::demos_of_rollouts(traces, self.min_demo_score, traces.len()),
        )
    }
}

impl BootstrapRun {
    pub open spec fn wf(&self) -> bool {
        self.phase matches BootstrapPhase::Trial { candidate } ==> candidate.wf()
    }

    /// A run over the predictors.
    pub fn new(config: BootstrapFewShot, leaves: &Vec<LeafInfo>) -> (r: Result<
        Self,
        BootstrapError,
    >)
        ensures
            match r {
                Ok(run) => leaves@.len() > 0 && run.wf() && run.config == config
                    && run.phase is Fresh,
                Err(e) => leaves@.len() == 0 && e is NoPredictors,
            },
    {
        if leaves.len() == 0 {
            return Err(BootstrapError::NoPredictors);
        }
        Ok(
            BootstrapRun {
                config,
                baseline_score: 0,
                demos_per_predictor: Vec::new(),
                phase: BootstrapPhase::Fresh,
            },
        )
    }

    /// Begins the teacher pass: the evaluation of the candidate that changes nothing.
    pub fn start(&mut self, engine: &mut Engine, lane: &Lane) -> (r: Result<
        BootstrapAction,
        BootstrapError,
    >)
        requires
            old(self).wf(),
            old(self).phase is Fresh,
            old(engine).wf(),
            old(engine).payloads@.len() < usize::MAX,
        ensures
            final(self).wf(),
            final(engine).wf(),
            exists|row: usize, begun: Result<BatchStep, EngineError>| #[trigger]
                trial::tried(
                    *old(engine),
                    *final(engine),
                    *lane,
                    Map::<Seq<char>, SlotView>::empty(),
                    None,
                    row,
                    begun,
                ) && match begun {
                    Ok(BatchStep::Run(plan)) => {
                        &&& *final(self) == (BootstrapRun {
                            phase: BootstrapPhase::Teacher,
                            ..*old(self)
                        })
                        &&& r == Ok::<BootstrapAction, BootstrapError>(
                            BootstrapAction::Evaluate { plan },
                        )
                    },
                    Ok(BatchStep::BudgetExhausted { needed }) => *final(self) == *old(self) && r
                        == Err::<BootstrapAction, BootstrapError>(
                        BootstrapError::BudgetTooSmall { needed },
                    ),
                    Err(e) => *final(self) == *old(self) && r == Err::<
                        BootstrapAction,
                        BootstrapError,
                    >(BootstrapError::Engine(e)),
                },
    {
        let ghost before = *engine;
        let (row, begun) = trial::try_candidate(engine, lane, Candidate::new(), None);
        let ghost seen = begun;
        proof {
            assert(trial::tried(
                before,
                *engine,
                *lane,
                Map::<Seq<char>, SlotView>::empty(),
                None,
                row,
                seen,
            ));
        }
        match begun {
            Ok(BatchStep::Run(plan)) => {
                self.phase = BootstrapPhase::Teacher;
                Ok(BootstrapAction::Evaluate { plan })
            },
            Ok(BatchStep::BudgetExhausted { needed }) => Err(
                BootstrapError::BudgetTooSmall { needed },
            ),
            Err(e) => Err(BootstrapError::Engine(e)),
        }
    }

    /// The report of a run that tried no candidate.
    pub open spec fn untried(
        report: BootstrapReport,
        mean: i64,
        counts: Map<Seq<char>, usize>,
        spend: Spend,
    ) -> bool {
        &&& report.baseline_score == mean
        &&& report.candidate_score is None
        &&& !report.adopted
        &&& names::map_of(report.demos_per_predictor@) == counts
        &&& report.spend == spend
    }

    /// What follows the teacher pass: a candidate with the demos is evaluated. The run ends
    /// without a winner when there are no demos, or the budget does not admit the evaluation.
    pub open spec fn after_teacher(
        before: BootstrapRun,
        engine_before: Engine,
        after: BootstrapRun,
        engine_after: Engine,
        lane: Lane,
        cands: Seq<DemoCandidate>,
        mean: i64,
        r: Result<BootstrapAction, BootstrapError>,
    ) -> bool {
        let max = before.config.max_demos as nat;
        let slots = harvest::demo_slots(cands, max);
        let counts = harvest::demo_counts(cands, max);
        if slots == Map::<Seq<char>, SlotView>::empty() {
            &&& engine_after == engine_before
            &&& after == (BootstrapRun { phase: BootstrapPhase::Done, ..before })
            &&& r matches Ok(BootstrapAction::Finish { report, winner }) && winner is None
                && BootstrapRun::untried(report, mean, counts, engine_before.ledger.spend)
        } else {
            exists|row: usize, begun: Result<BatchStep, EngineError>| #[trigger]
                trial::tried(engine_before, engine_after, lane, slots, None, row, begun)
                    && match begun {
                    Ok(BatchStep::Run(plan)) => {
                        &&& after.phase matches BootstrapPhase::Trial { candidate } && candidate@
                            == slots
                        &&& after.config == before.config
                        &&& after.baseline_score == mean
                        &&& names::map_of(after.demos_per_predictor@) == counts
                        &&& r == Ok::<BootstrapAction, BootstrapError>(
                            BootstrapAction::Evaluate { plan },
                        )
                    },
                    Ok(BatchStep::BudgetExhausted { .. }) => {
                        &&& after == (BootstrapRun {
                            baseline_score: mean,
                            phase: BootstrapPhase::Done,
                            ..before
                        })
                        &&& r matches Ok(BootstrapAction::Finish { report, winner }) && winner
                            is None && BootstrapRun::untried(
                            report,
                            mean,
                            counts,
                            engine_after.ledger.spend,
                        )
                    },
                    Err(e) => after == (BootstrapRun { baseline_score: mean, ..before }) && r
                        == Err::<BootstrapAction, BootstrapError>(BootstrapError::Engine(e)),
                }
        }
    }

    /// Takes the teacher pass: its demos become a candidate.
    pub fn on_teacher_evaluated(
        &mut self,
        engine: &mut Engine,
        lane: &Lane,
        eval: &CandidateEval,
        mean: i64,
    ) -> (r: Result<BootstrapAction, BootstrapError>)
        requires
            old(self).wf(),
            old(self).phase is Teacher,
            old(engine).wf(),
            old(engine).payloads@.len() < usize::MAX,
        ensures
            final(self).wf(),
            final(engine).wf(),
            exists|cands: Seq<DemoCandidate>| #[trigger]
                old(self).config.harvested(cands, *eval) && BootstrapRun::after_teacher(
                    *old(self),
                    *old(engine),
                    *final(self),
                    *final(engine),
                    *lane,
                    cands,
                    mean,
                    r,
                ),
    {
        let ghost run_before = *self;
        let ghost before = *engine;
        let traces = harvest::scored_traces(eval);
        let cands = harvest::collect_demo_candidates(&traces, self.config.min_demo_score);
        let candidate = harvest::demo_candidate(&cands, self.config.max_demos);
        let counts = harvest::count_demos(&cands, self.config.max_demos);
        let ghost slots = harvest::demo_slots(cands@, self.config.max_demos as nat);
        proof {
            assert(run_before.config.harvested(cands@, *eval));
        }
        if candidate.is_empty() {
            self.phase = BootstrapPhase::Done;
            let report = BootstrapReport {
                baseline_score: mean,
                candidate_score: None,
                adopted: false,
                demos_per_predictor: counts,
                spend: *engine.spend(),
            };
            let result = Ok(BootstrapAction::Finish { report, winner: None });
            proof {
                assert(BootstrapRun::after_teacher(
                    run_before,
                    before,
                    *self,
                    *engine,
                    *lane,
                    cands@,
                    mean,
                    result,
                ));
            }
            return result;
        }
        self.baseline_score = mean;
        let (row, begun) = trial::try_candidate(engine, lane, candidate.clone(), None);
        let ghost seen = begun;
        proof {
            assert(trial::tried(before, *engine, *lane, slots, None, row, seen));
        }
        let result = match begun {
            Ok(BatchStep::Run(plan)) => {
                self.demos_per_predictor = counts;
                self.phase = BootstrapPhase::Trial { candidate };
                Ok(BootstrapAction::Evaluate { plan })
            },
            Ok(BatchStep::BudgetExhausted { .. }) => {
                self.phase = BootstrapPhase::Done;
                let report = BootstrapReport {
                    baseline_score: mean,
                    candidate_score: None,
                    adopted: false,
                    demos_per_predictor: counts,
                    spend: *engine.spend(),
                };
                Ok(BootstrapAction::Finish { report, winner: None })
            },
            Err(e) => Err(BootstrapError::Engine(e)),
        };
        proof {
            assert(BootstrapRun::after_teacher(
                run_before,
                before,
                *self,
                *engine,
                *lane,
                cands@,
                mean,
                result,
            ));
        }
        result
    }

    /// Takes the evaluation of the candidate: it wins when its mean is above that of the
    /// teacher pass.
    pub fn on_candidate_evaluated(&mut self, engine: &Engine, mean: i64) -> (r: BootstrapAction)
        requires
            old(self).wf(),
            old(self).phase is Trial,
        ensures
            final(self).wf(),
            *final(self) == (BootstrapRun {
                demos_per_predictor: final(self).demos_per_predictor,
                phase: BootstrapPhase::Done,
                ..*old(self)
            }),
            final(self).demos_per_predictor@.len() == 0,
            r matches BootstrapAction::Finish { report, winner } && {
                let adopted = mean > old(self).baseline_score;
                &&& report.baseline_score == old(self).baseline_score
                &&& report.candidate_score == Some(mean)
                &&& report.adopted == adopted
                &&& report.demos_per_predictor == old(self).demos_per_predictor
                &&& report.spend == engine.ledger.spend
                &&& adopted ==> winner == Some(old(self).phase->candidate)
                &&& !adopted ==> winner is None
            },
    {
        let mut phase = BootstrapPhase::Done;
        std::mem::swap(&mut phase, &mut self.phase);
        let adopted = mean > self.baseline_score;
        let mut counts: Vec<(String, usize)> = Vec::new();
        std::mem::swap(&mut counts, &mut self.demos_per_predictor);
        let report = BootstrapReport {
            baseline_score: self.baseline_score,
            candidate_score: Some(mean),
            adopted,
            demos_per_predictor: counts,
            spend: *engine.spend(),
        };
        let winner = match phase {
            BootstrapPhase::Trial { candidate } => if adopted {
                Some(candidate)
            } else {
                None
            },
            _ => None,
        };
        BootstrapAction::Finish { report, winner }
    }
}

/// The candidate that is tried gives a predictor no instruction, only demos: at most as many as
/// are allowed, and each shows a good call of that predictor in the teacher pass.
pub proof fn tried_demos_show_good_calls_of_the_teacher(
    run: &mut BootstrapRun,
    engine: &mut Engine,
    lane: &Lane,
    eval: &CandidateEval,
    mean: i64,
    r: Result<BootstrapAction, BootstrapError>,
    name: Seq<char>,
    j: int,
)
    requires
        old(run).wf(),
        old(run).phase is Teacher,
        call_ensures(BootstrapRun::on_teacher_evaluated, (run, engine, lane, eval, mean), r),
        final(run).phase is Trial,
        final(run).phase->candidate@.dom().contains(name),
        forall|a: int, b: int|
            0 <= a < eval.rollouts@.len() && eval.rollouts@[a].trace is Some && 0 <= b
                < eval.rollouts@[a].trace->0.spans@.len()
                && eval.rollouts@[a].trace->0.spans@[b].input is Some
                && eval.rollouts@[a].trace->0.spans@[b].output is Some ==> json::distinct_names(
                json::members_view((#[trigger] eval.rollouts@[a].trace->0.spans@[b]).input->0@),
            ) && json::distinct_names(
                json::members_view(eval.rollouts@[a].trace->0.spans@[b].output->0@),
            ),
    ensures
        final(run).baseline_score == mean,
        final(run).phase->candidate@[name].instruction is None,
        !final(run).phase->candidate@[name].clear_instruction,
        final(run).phase->candidate@[name].demos is Some,
        0 < final(run).phase->candidate@[name].demos->0.len() <= old(run).config.max_demos,
        0 <= j < final(run).phase->candidate@[name].demos->0.len() ==> exists|a: int, b: int|
            0 <= a < eval.rollouts@.len() && eval.rollouts@[a].trace is Some && 0 <= b
                < eval.rollouts@[a].trace->0.spans@.len() && (
            #[trigger] eval.rollouts@[a].trace->0.spans@[b]).component@ == name
                && harvest::good_call(
                eval.rollouts@[a].eval.score,
                eval.rollouts@[a].trace->0.spans@[b],
                old(run).config.min_demo_score,
            ) && harvest::shows_call(
                final(run).phase->candidate@[name].demos->0[j],
                eval.rollouts@[a].trace->0.spans@[b],
            ),
{
    let cands = choose|cands: Seq<DemoCandidate>| #[trigger]
        old(run).config.harvested(cands, *eval) && BootstrapRun::after_teacher(
            *old(run),
            *old(engine),
            *final(run),
            *final(engine),
            *lane,
            cands,
            mean,
            r,
        );
    let max = old(run).config.max_demos as nat;
    let min = old(run).config.min_demo_score;
    assert(final(run).phase->candidate@ == harvest::demo_slots(cands, max));
    let rows = final(run).phase->candidate@[name].demos->0;
    assert(rows == harvest::kept_rows(cands, name, max));
    harvest::kept_demos_are_capped_and_distinct(cands, name, max);
    if 0 <= j < rows.len() {
        let traces = harvest::traced(eval.rollouts@, eval.rollouts@.len());
        let at = harvest::kept(cands, name, max)[j];
        assert(cands[at].predictor@ == name);
        let from = harvest::lemma_demo_is_of(traces, min, traces.len(), at);
        let a = harvest::lemma_traced_is_of(eval.rollouts@, eval.rollouts@.len(), from.0);
        let span = eval.rollouts@[a].trace->0.spans@[from.1];
        assert(harvest::made_from(cands[at], eval.rollouts@[a].eval.score, span));
        harvest::lemma_row_shows_call(span);
        assert(rows[j] == json::members_view(cands[at].row@));
    }
}

/// Where a predictor made a good call in the teacher pass, it gets demos: the candidate that is
/// tried has them, and the run does not end for want of any.
pub proof fn good_calls_of_the_teacher_are_tried(
    run: &mut BootstrapRun,
    engine: &mut Engine,
    lane: &Lane,
    eval: &CandidateEval,
    mean: i64,
    r: Result<BootstrapAction, BootstrapError>,
    a: int,
    b: int,
)
    requires
        old(run).wf(),
        old(run).phase is Teacher,
        old(run).config.max_demos > 0,
        call_ensures(BootstrapRun::on_teacher_evaluated, (run, engine, lane, eval, mean), r),
        0 <= a < eval.rollouts@.len(),
        eval.rollouts@[a].trace is Some,
        0 <= b < eval.rollouts@[a].trace->0.spans@.len(),
        harvest::good_call(
            eval.rollouts@[a].eval.score,
            eval.rollouts@[a].trace->0.spans@[b],
            old(run).config.min_demo_score,
        ),
    ensures
        final(run).phase is Trial ==> final(run).phase->candidate@.dom().contains(
            eval.rollouts@[a].trace->0.spans@[b].component@,
        ),
        r matches Ok(BootstrapAction::Finish { report, winner }) ==> names::map_of(
            report.demos_per_predictor@,
        ).dom().contains(eval.rollouts@[a].trace->0.spans@[b].component@),
{
    let cands = choose|cands: Seq<DemoCandidate>| #[trigger]
        old(run).config.harvested(cands, *eval) && BootstrapRun::after_teacher(
            *old(run),
            *old(engine),
            *final(run),
            *final(engine),
            *lane,
            cands,
            mean,
            r,
        );
    let max = old(run).config.max_demos as nat;
    let min = old(run).config.min_demo_score;
    let traces = harvest::traced(eval.rollouts@, eval.rollouts@.len());
    let span = eval.rollouts@[a].trace->0.spans@[b];
    let t = harvest::lemma_traced_has(eval.rollouts@, eval.rollouts@.len(), a);
    let k = harvest::lemma_demo_has(traces, min, traces.len(), t, b);
    assert(harvest::made_from(cands[k], traces[t].0, span));
    harvest::lemma_some_are_kept(cands, max, k);
    assert(harvest::demo_slots(cands, max).dom().contains(span.component@));
    assert(harvest::demo_slots(cands, max) != Map::<Seq<char>, SlotView>::empty());
}

/// The demos are installed exactly where the program does better with them than without.
pub proof fn demos_win_by_a_higher_mean(
    run: &mut BootstrapRun,
    engine: &Engine,
    mean: i64,
    r: BootstrapAction,
)
    requires
        old(run).wf(),
        old(run).phase is Trial,
        call_ensures(BootstrapRun::on_candidate_evaluated, (run, engine, mean), r),
    ensures
        r is Finish,
        r->winner is Some <==> mean > old(run).baseline_score,
        r->winner is Some ==> r->winner->0 == old(run).phase->candidate,
        r->report.adopted <==> r->winner is Some,
        r->report.baseline_score == old(run).baseline_score,
        r->report.candidate_score == Some(mean),
{
}

/// A run that its budget cut short says how many rollouts it needed, and one that the engine
/// stopped says what the engine said.
pub proof fn failures_say_what_was_needed(
    e: &BootstrapError,
    r: String,
    inner: &EngineError,
    said: String,
)
    requires
        call_ensures(BootstrapError::message, (e,), r),
        call_ensures(EngineError::message, (inner,), said),
    ensures
        *e matches BootstrapError::BudgetTooSmall { needed } ==> text::has_text(
            r@,
            text::decimal(needed as nat),
        ),
        *e == BootstrapError::Engine(*inner) ==> r@ == said@,
{
    match *e {
        BootstrapError::BudgetTooSmall { needed } => {
            text_laws::lemma_inside(
                "budget too small for the teacher pass ("@,
                text::decimal(needed as nat),
                " rollouts needed)"@,
            );
        },
        _ => {},
    }
}

/// The limits of a search are those of its engine, and it evaluates with as many at a time as it
/// says, with one where it says none.
pub proof fn limits_are_those_of_the_search(g: &BootstrapFewShot, r: EngineConfig)
    requires
        call_ensures(BootstrapFewShot::engine_config, (g,), r),
    ensures
        r.budget.max_metric_calls == g.max_metric_calls,
        r.budget.max_lm_calls == g.max_lm_calls,
        r.budget.max_tokens is None,
        g.eval_concurrency > 0 ==> r.concurrency == g.eval_concurrency,
        g.eval_concurrency == 0 ==> r.concurrency == 1,
{
}

} // verus!
