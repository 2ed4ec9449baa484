//! Instructions from traces and tips: the run of MIPRO as steps between evaluations.

use rand::rngs::StdRng;
use std::sync::Arc;
use vstd::prelude::*;

use crate::json;
use crate::optimizer::engine::{Candidate, SlotView};
use crate::optimizer::gepa;
use crate::optimizer::harvest;
use crate::optimizer::harvest::DemoCandidate;
use crate::optimizer::rollouts;
use crate::optimizer::rollouts::{
    BatchPlan,
    BatchStep,
    CandidateEval,
    Engine,
    EngineConfig,
    EngineError,
    Lane,
};
use crate::optimizer::target;
use crate::optimizer::target::LeafInfo;
use crate::optimizer::trial;
use crate::optimizer::OptimizerCommon;
use crate::random;
use crate::text;
use crate::text_laws;
use crate::trace::{Score, Trace};

verus! {

/// Prompting practices that candidates are made from.
#[derive(Debug)]
pub struct PromptingTips {
    pub tips: Vec<String>,
}

/// The tips that come with the library.
pub open spec fn known_tips() -> Seq<Seq<char>> {
    seq![
        "Use clear and specific language"@,
        "Provide context about the task domain"@,
        "Specify the desired output format"@,
        "Use chain-of-thought reasoning for complex tasks"@,
        "Include few-shot examples when helpful"@,
        "Break down complex instructions into steps"@,
        "Use role-playing (e.g., 'You are an expert...') when appropriate"@,
        "Specify constraints and edge cases"@,
        "Request explanations or reasoning when needed"@,
        "Use structured output formats (JSON, lists, etc.) when applicable"@,
        "Consider the model's strengths and limitations"@,
        "Be explicit about what to avoid or exclude"@,
        "Use positive framing (what to do vs. what not to do)"@,
        "Provide examples of both correct and incorrect outputs when useful"@,
        "Use delimiters or markers to separate different sections"@,
    ]
}

/// The tips as numbered lines.
pub open spec fn numbered(tips: Seq<Seq<char>>) -> Seq<Seq<char>> {
    Seq::new(tips.len(), |i: int| text::decimal((i + 1) as nat) + ". "@ + tips[i])
}

impl PromptingTips {
    pub fn default_tips() -> (r: Self)
        ensures
            text::views(r.tips@) == known_tips(),
    {
        let mut tips: Vec<String> = Vec::new();
        tips.push("Use clear and specific language".to_owned());
        tips.push("Provide context about the task domain".to_owned());
        tips.push("Specify the desired output format".to_owned());
        tips.push("Use chain-of-thought reasoning for complex tasks".to_owned());
        tips.push("Include few-shot examples when helpful".to_owned());
        tips.push("Break down complex instructions into steps".to_owned());
        tips.push("Use role-playing (e.g., 'You are an expert...') when appropriate".to_owned());
        tips.push("Specify constraints and edge cases".to_owned());
        tips.push("Request explanations or reasoning when needed".to_owned());
        tips.push("Use structured output formats (JSON, lists, etc.) when applicable".to_owned());
        tips.push("Consider the model's strengths and limitations".to_owned());
        tips.push("Be explicit about what to avoid or exclude".to_owned());
        tips.push("Use positive framing (what to do vs. what not to do)".to_owned());
        tips.push("Provide examples of both correct and incorrect outputs when useful".to_owned());
        tips.push("Use delimiters or markers to separate different sections".to_owned());
        proof {
            assert(text::views(tips@) =~= known_tips());
        }
        PromptingTips { tips }
    }

    /// The tips as numbered lines.
    pub fn format_for_prompt(&self) -> (r: String)
        ensures
            r@ == text::join(numbered(text::views(self.tips@)), "\n"@),
    {
        let mut lines: Vec<String> = Vec::new();
        let n = self.tips.len();
        let mut i: usize = 0;
        while i < n
            invariant
                i <= n,
                n == self.tips@.len(),
                lines@.len() == i,
                forall|k: int|
                    0 <= k < i ==> (#[trigger] lines@[k])@ == text::decimal((k + 1) as nat) + ". "@
                        + self.tips@[k]@,
            decreases n - i,
        {
            let mut line = text::decimal_string((i + 1) as u64);
            line.append(". ");
            line.append(self.tips[i].as_str());
            lines.push(line);
            i += 1;
        }
        proof {
            assert(text::views(lines@) =~= numbered(text::views(self.tips@)));
        }
        text::join_strs(&lines, "\n")
    }
}

/// The fields of a predictor as lines.
pub open spec fn fields_text(leaf: LeafInfo) -> Seq<char> {
    "Input Fields:\n"@ + target::field_lines(leaf.input_fields@, leaf.input_fields@.len())
        + "\nOutput Fields:\n"@ + target::field_lines(
        leaf.output_fields@,
        leaf.output_fields@.len(),
    )
}

pub fn format_leaf_fields(leaf: &LeafInfo) -> (r: String)
    ensures
        r@ == fields_text(*leaf),
{
    let mut out = "Input Fields:\n".to_owned();
    target::push_field_lines(&mut out, &leaf.input_fields);
    out.append("\nOutput Fields:\n");
    target::push_field_lines(&mut out, &leaf.output_fields);
    out
}

/// The highest score above zero that the first `n` traces have, as a key and its text.
pub open spec fn score_hint(traces: Seq<(Score, Arc<Trace>)>, n: nat) -> (i64, Seq<char>)
    decreases n,
{
    if n == 0 || n > traces.len() {
        (0, "0.000"@)
    } else {
        let before = score_hint(traces, (n - 1) as nat);
        match traces[n - 1].1.outcome {
            Some(eval) => if eval.score.key > before.0 {
                (eval.score.key, eval.score_text@)
            } else {
                before
            },
            None => before,
        }
    }
}

fn hint_of(traces: &Vec<(Score, Arc<Trace>)>) -> (r: String)
    ensures
        r@ == score_hint(traces@, traces@.len()).1,
{
    let mut key: i64 = 0;
    let mut shown = "0.000".to_owned();
    let mut i: usize = 0;
    while i < traces.len()
        invariant
            i <= traces@.len(),
            (key, shown@) == score_hint(traces@, i as nat),
        decreases traces@.len() - i,
    {
        match &traces[i].1.outcome {
            Some(eval) => {
                if eval.score.key > key {
                    key = eval.score.key;
                    shown = eval.score_text.clone();
                }
            },
            None => {},
        }
        i += 1;
    }
    shown
}

/// The instruction of a candidate.
pub open spec fn proposal(description: Seq<char>, i: nat, hint: Seq<char>) -> Seq<char> {
    description + "\n\nOptimization candidate "@ + text::decimal(i + 1) + ":\n- "@
        + known_tips()[(i % 15) as int] + "\n- Target score >= "@ + hint
}

/// The instructions of so many candidates.
pub open spec fn proposals(description: Seq<char>, count: nat, hint: Seq<char>) -> Seq<Seq<char>> {
    Seq::new(count, |i: int| proposal(description, i as nat, hint))
}

/// The settings of MIPRO. `min_demo_score` is the key of the lowest score with which a call
/// becomes a demonstration.
#[derive(Clone, Copy, Debug, PartialEq, Eq, Structural)]
pub struct MIPROv2 {
    pub num_candidates: usize,
    pub num_trials: usize,
    pub minibatch_size: usize,
    pub max_bootstrapped_demos: usize,
    pub min_demo_score: i64,
    pub eval_concurrency: usize,
    pub seed: Option<u64>,
}

impl Default for MIPROv2 {
    fn default() -> (r: Self)
        ensures
            r == (MIPROv2 {
                num_candidates: 10,
                num_trials: 20,
                minibatch_size: 25,
                max_bootstrapped_demos: 4,
                min_demo_score: 0,
                eval_concurrency: rollouts::DEFAULT_EVAL_CONCURRENCY,
                seed: None,
            }),
    {
        MIPROv2 {
            num_candidates: 10,
            num_trials: 20,
            minibatch_size: 25,
            max_bootstrapped_demos: 4,
            min_demo_score: 0,
            eval_concurrency: rollouts::DEFAULT_EVAL_CONCURRENCY,
            seed: None,
        }
    }
}

impl MIPROv2 {
    pub open spec fn common_spec(&self) -> OptimizerCommon {
        OptimizerCommon {
            eval_concurrency: self.eval_concurrency,
            max_metric_calls: None,
            max_lm_calls: None,
            cache_salt: 0,
            seed: self.seed,
        }
    }

    pub fn common(&self) -> (r: OptimizerCommon)
        ensures
            r == self.common_spec(),
    {
        OptimizerCommon {
            eval_concurrency: self.eval_concurrency,
            max_metric_calls: None,
            max_lm_calls: None,
            cache_salt: 0,
            seed: self.seed,
        }
    }

    pub fn engine_config(&self) -> (r: EngineConfig)
        ensures
            r == self.common_spec().engine_config_spec(),
    {
        self.common().engine_config()
    }

    /// The instructions of so many candidates, each with another tip.
    pub fn generate_candidate_instructions(
        &self,
        program_description: &str,
        score_hint: &str,
        num_candidates: usize,
    ) -> (r: Vec<String>)
        ensures
            text::views(r@) == proposals(
                program_description@,
                num_candidates as nat,
                score_hint@,
            ),
    {
        let tips = PromptingTips::default_tips();
        proof {
            assert(text::views(tips.tips@).len() == tips.tips@.len());
        }
        let mut out: Vec<String> = Vec::new();
        let mut i: usize = 0;
        while i < num_candidates
            invariant
                i <= num_candidates,
                tips.tips@.len() == 15,
                text::views(tips.tips@) == known_tips(),
                out@.len() == i,
                forall|k: int|
                    0 <= k < i ==> (#[trigger] out@[k])@ == proposal(
                        program_description@,
                        k as nat,
                        score_hint@,
                    ),
            decreases num_candidates - i,
        {
            let tip = &tips.tips[i % 15];
            proof {
                assert(tip@ == text::views(tips.tips@)[(i % 15) as int]);
            }
            let mut option = program_description.to_owned();
            option.append("\n\nOptimization candidate ");
            text::push_decimal(&mut option, (i + 1) as u64);
            option.append(":\n- ");
            option.append(tip.as_str());
            option.append("\n- Target score >= ");
            option.append(score_hint);
            out.push(option);
            i += 1;
        }
        proof {
            assert(text::views(out@) =~= proposals(
                program_description@,
                num_candidates as nat,
                score_hint@,
            ));
        }
        out
    }

    /// How many candidates a predictor has tried.
    pub open spec fn trials(&self) -> nat {
        let limit: nat = if self.num_trials == 0 {
            1
        } else {
            self.num_trials as nat
        };
        if self.num_candidates <= limit {
            self.num_candidates as nat
        } else {
            limit
        }
    }
}

/// What the driver of a run does next.
#[derive(Debug)]
pub enum MiproAction {
    /// Run the pending rollouts of the plan, commit them, and hand back the evaluation.
    Evaluate { plan: BatchPlan },
    /// Go on with `next_predictor`.
    Draw,
    /// Go on with `next_trial`.
    Next,
    /// Install the winner: the run is over.
    Install { winner: Candidate },
}

/// Why a run fails.
#[derive(Debug)]
pub enum MiproError {
    NoPredictors,
    TeacherBudget { needed: usize },
    TrialBudget { needed: usize },
    NoCandidates,
    Engine(EngineError),
}

impl MiproError {
    pub open spec fn text(&self) -> Seq<char> {
        match self {
            MiproError::NoPredictors => "no optimizable predictors found"@,
            MiproError::TeacherBudget { needed } => "budget exhausted ("@ + text::decimal(
                *needed as nat,
            ) + " rollouts needed) during the teacher pass"@,
            MiproError::TrialBudget { needed } => "budget exhausted ("@ + text::decimal(
                *needed as nat,
            ) + " rollouts needed) during trial evaluation"@,
            MiproError::NoCandidates => "no candidates to evaluate"@,
            MiproError::Engine(e) => e.text(),
        }
    }

    pub fn message(&self) -> (r: String)
        ensures
            r@ == self.text(),
    {
        match self {
            MiproError::NoPredictors => "no optimizable predictors found".to_owned(),
            MiproError::TeacherBudget { needed } => {
                let mut out = "budget exhausted (".to_owned();
                text::push_decimal(&mut out, *needed as u64);
                out.append(" rollouts needed) during the teacher pass");
                out
            },
            MiproError::TrialBudget { needed } => {
                let mut out = "budget exhausted (".to_owned();
                text::push_decimal(&mut out, *needed as u64);
                out.append(" rollouts needed) during trial evaluation");
                out
            },
            MiproError::NoCandidates => "no candidates to evaluate".to_owned(),
            MiproError::Engine(e) => e.message(),
        }
    }
}

/// What a run waits for.
#[derive(Debug)]
pub enum MiproPhase {
    /// The teacher pass has to be begun.
    Fresh,
    /// The evaluation of the program as it is.
    Teacher,
    /// The turn of the next predictor.
    Ready,
    /// The trials of a predictor on a minibatch. `means` are those of the options tried.
    Trials { minibatch: Vec<usize>, options: Vec<String>, means: Vec<i64> },
}

/// A run of MIPRO: the winner so far, and whose turn it is.
#[derive(Debug)]
pub struct MiproRun {
    pub config: MIPROv2,
    pub leaves: Vec<LeafInfo>,
    pub num_examples: usize,
    pub current: Candidate,
    pub hint: String,
    pub leaf: usize,
    pub phase: MiproPhase,
}

impl MiproRun {
    pub open spec fn wf(&self) -> bool {
        &&& self.leaves@.len() > 0
        &&& self.current.wf()
        &&& self.leaf <= self.leaves@.len()
        &&& match self.phase {
            MiproPhase::Trials { options, means, .. } => {
                &&& self.leaf < self.leaves@.len()
                &&& text::views(options@) == self.options_of(self.leaf as int)
                &&& means@.len() < self.config.trials()
                &&& self.config.trials() <= options@.len()
            },
            _ => true,
        }
    }

    /// The instructions that compete for a predictor.
    pub open spec fn options_of(&self, leaf: int) -> Seq<Seq<char>> {
        proposals(
            fields_text(self.leaves@[leaf]),
            self.config.num_candidates as nat,
            self.hint@,
        )
    }

    pub open spec fn with_phase(self, phase: MiproPhase) -> MiproRun {
        MiproRun { phase, ..self }
    }

    /// A run over the predictors.
    pub fn new(config: MIPROv2, leaves: Vec<LeafInfo>, num_examples: usize) -> (r: Result<
        Self,
        MiproError,
    >)
        ensures
            match r {
                Ok(run) => {
                    &&& leaves@.len() > 0
                    &&& run.wf()
                    &&& run.config == config
                    &&& run.leaves == leaves
                    &&& run.num_examples == num_examples
                    &&& run.current@ == Map::<Seq<char>, SlotView>::empty()
                    &&& run.leaf == 0
                    &&& run.phase is Fresh
                },
                Err(e) => leaves@.len() == 0 && e is NoPredictors,
            },
    {
        if leaves.len() == 0 {
            return Err(MiproError::NoPredictors);
        }
        Ok(
            MiproRun {
                config,
                leaves,
                num_examples,
                current: Candidate::new(),
                hint: String::new(),
                leaf: 0,
                phase: MiproPhase::Fresh,
            },
        )
    }

    /// Begins the teacher pass: the evaluation of the candidate that changes nothing.
    pub fn start(&mut self, engine: &mut Engine, lane: &Lane) -> (r: Result<
        MiproAction,
        MiproError,
    >)
        requires
            old(self).wf(),
            old(self).phase is Fresh,
            old(engine).wf(),
            old(engine).payloads@.len() < usize::MAX,
        ensures
            final(self).wf(),
            final(engine).wf(),
            exists|row: usize, begun: Result<BatchStep, EngineError>| #[trigger]
                trial::tried(
                    *old(engine),
                    *final(engine),
                    *lane,
                    Map::<Seq<char>, SlotView>::empty(),
                    None,
                    row,
                    begun,
                ) && match begun {
                    Ok(BatchStep::Run(plan)) => {
                        &&& *final(self) == old(self).with_phase(MiproPhase::Teacher)
                        &&& r == Ok::<MiproAction, MiproError>(MiproAction::Evaluate { plan })
                    },
                    Ok(BatchStep::BudgetExhausted { needed }) => *final(self) == *old(self) && r
                        == Err::<MiproAction, MiproError>(MiproError::TeacherBudget { needed }),
                    Err(e) => *final(self) == *old(self) && r == Err::<MiproAction, MiproError>(
                        MiproError::Engine(e),
                    ),
                },
    {
        let ghost before = *engine;
        let (row, begun) = trial::try_candidate(engine, lane, Candidate::new(), None);
        let ghost seen = begun;
        proof {
            assert(trial::tried(
                before,
                *engine,
                *lane,
                Map::<Seq<char>, SlotView>::empty(),
                None,
                row,
                seen,
            ));
        }
        match begun {
            Ok(BatchStep::Run(plan)) => {
                self.phase = MiproPhase::Teacher;
                Ok(MiproAction::Evaluate { plan })
            },
            Ok(BatchStep::BudgetExhausted { needed }) => Err(
                MiproError::TeacherBudget { needed },
            ),
            Err(e) => Err(MiproError::Engine(e)),
        }
    }

    /// The demos of the teacher pass, and the score that candidates are told to reach.
    pub open spec fn taught(
        before: MiproRun,
        after: MiproRun,
        cands: Seq<DemoCandidate>,
        eval: CandidateEval,
    ) -> bool {
        let traces = harvest::traced(eval.rollouts@, eval.rollouts@.len());
        &&& harvest::all_made_from(
            cands,
            harvest::demos_of_rollouts(traces, before.config.min_demo_score, traces.len()),
        )
        &&& after.current@ == harvest::demo_slots(
            cands,
            before.config.max_bootstrapped_demos as nat,
        )
        &&& after.hint@ == score_hint(traces, traces.len()).1
    }

    /// Takes the teacher pass: its demos go into the winner.
    pub fn on_teacher_evaluated(&mut self, eval: &CandidateEval) -> (r: MiproAction)
        requires
            old(self).wf(),
            old(self).phase is Teacher,
        ensures
            final(self).wf(),
            r is Draw,
            *final(self) == (MiproRun {
                current: final(self).current,
                hint: final(self).hint,
                phase: MiproPhase::Ready,
                ..*old(self)
            }),
            exists|cands: Seq<DemoCandidate>| #[trigger]
                MiproRun::taught(*old(self), *final(self), cands, *eval),
    {
        let ghost before = *self;
        let traces = harvest::scored_traces(eval);
        let cands = harvest::collect_demo_candidates(&traces, self.config.min_demo_score);
        self.current = harvest::demo_candidate(&cands, self.config.max_bootstrapped_demos);
        self.hint = hint_of(&traces);
        self.phase = MiproPhase::Ready;
        proof {
            assert(MiproRun::taught(before, *self, cands@, *eval));
        }
        MiproAction::Draw
    }

    /// The turn of a predictor on a minibatch: its options are tried one by one. Behind the
    /// last predictor the winner is installed.
    pub fn begin_predictor(&mut self, minibatch: Vec<usize>) -> (r: Result<MiproAction, MiproError>)
        requires
            old(self).wf(),
            old(self).phase is Ready,
        ensures
            final(self).wf(),
            old(self).begins(*final(self), minibatch@, r),
    {
        if self.leaf >= self.leaves.len() {
            return Ok(MiproAction::Install { winner: self.current.clone() });
        }
        let description = format_leaf_fields(&self.leaves[self.leaf]);
        let options = self.config.generate_candidate_instructions(
            description.as_str(),
            self.hint.as_str(),
            self.config.num_candidates,
        );
        if self.config.num_candidates == 0 {
            return Err(MiproError::NoCandidates);
        }
        proof {
            assert(text::views(options@).len() == options@.len());
        }
        self.phase = MiproPhase::Trials { minibatch, options, means: Vec::new() };
        Ok(MiproAction::Next)
    }

    /// What the turn of a predictor begins with.
    pub open spec fn begins(
        &self,
        after: MiproRun,
        minibatch: Seq<usize>,
        r: Result<MiproAction, MiproError>,
    ) -> bool {
        if self.leaf >= self.leaves@.len() {
            &&& after == *self
            &&& r matches Ok(MiproAction::Install { winner }) && winner.wf() && winner@
                == self.current@
        } else if self.config.num_candidates == 0 {
            after == *self && r == Err::<MiproAction, MiproError>(MiproError::NoCandidates)
        } else {
            &&& after == self.with_phase(after.phase)
            &&& after.phase matches MiproPhase::Trials { minibatch: m, options, means } && m@
                == minibatch && text::views(options@) == self.options_of(self.leaf as int)
                && means@.len() == 0
            &&& r == Ok::<MiproAction, MiproError>(MiproAction::Next)
        }
    }

    /// Draws the minibatch of the next predictor.
    pub fn next_predictor(&mut self, rng: &mut StdRng) -> (r: Result<MiproAction, MiproError>)
        requires
            old(self).wf(),
            old(self).phase is Ready,
        ensures
            final(self).wf(),
            exists|minibatch: Seq<usize>| #[trigger]
                old(self).begins(*final(self), minibatch, r) && random::is_sample(
                    minibatch,
                    rollouts::all_examples(old(self).num_examples as nat),
                    gepa::GEPA::batch_size(
                        old(self).config.minibatch_size,
                        old(self).num_examples as nat,
                    ) as usize,
                ),
    {
        let all = rollouts::example_range(0, self.num_examples);
        let wanted: usize = if self.config.minibatch_size == 0 {
            1
        } else {
            self.config.minibatch_size
        };
        let size: usize = if wanted < self.num_examples {
            wanted
        } else {
            self.num_examples
        };
        let minibatch = random::sample(rng, &all, size);
        let ghost drawn = minibatch@;
        proof {
            assert(all@ =~= rollouts::all_examples(self.num_examples as nat));
        }
        let result = self.begin_predictor(minibatch);
        proof {
            assert(old(self).begins(*self, drawn, result));
        }
        result
    }

    /// Begins the evaluation of the next option.
    pub fn next_trial(&self, engine: &mut Engine, lane: &Lane) -> (r: Result<
        MiproAction,
        MiproError,
    >)
        requires
            self.wf(),
            self.phase is Trials,
            old(engine).wf(),
            old(engine).payloads@.len() < usize::MAX,
        ensures
            final(engine).wf(),
            exists|row: usize, begun: Result<BatchStep, EngineError>| #[trigger]
                trial::tried(
                    *old(engine),
                    *final(engine),
                    *lane,
                    trial::with_instruction(
                        self.current@,
                        self.leaves@[self.leaf as int].name@,
                        self.phase->options@[self.phase->means@.len() as int]@,
                    ),
                    Some(self.phase->minibatch@),
                    row,
                    begun,
                ) && match begun {
                    Ok(BatchStep::Run(plan)) => r == Ok::<MiproAction, MiproError>(
                        MiproAction::Evaluate { plan },
                    ),
                    Ok(BatchStep::BudgetExhausted { needed }) => r == Err::<
                        MiproAction,
                        MiproError,
                    >(MiproError::TrialBudget { needed }),
                    Err(e) => r == Err::<MiproAction, MiproError>(MiproError::Engine(e)),
                },
    {
        match &self.phase {
            MiproPhase::Trials { minibatch, options, means } => {
                let ghost before = *engine;
                let (row, begun) = trial::try_change(
                    engine,
                    lane,
                    &self.current,
                    self.leaves[self.leaf].name.as_str(),
                    options[means.len()].as_str(),
                    Some(minibatch),
                );
                let ghost seen = begun;
                proof {
                    assert(trial::tried(
                        before,
                        *engine,
                        *lane,
                        trial::with_instruction(
                            self.current@,
                            self.leaves@[self.leaf as int].name@,
                            self.phase->options@[self.phase->means@.len() as int]@,
                        ),
                        Some(self.phase->minibatch@),
                        row,
                        seen,
                    ));
                }
                match begun {
                    Ok(BatchStep::Run(plan)) => Ok(MiproAction::Evaluate { plan }),
                    Ok(BatchStep::BudgetExhausted { needed }) => Err(
                        MiproError::TrialBudget { needed },
                    ),
                    Err(e) => Err(MiproError::Engine(e)),
                }
            },
            _ => Ok(MiproAction::Draw),
        }
    }

    /// The end of a turn: the first option with the highest mean becomes the instruction of the
    /// predictor.
    pub open spec fn settles(before: MiproRun, after: MiproRun, b: int) -> bool {
        &&& after == (MiproRun {
            current: after.current,
            leaf: (before.leaf + 1) as usize,
            phase: MiproPhase::Ready,
            ..before
        })
        &&& after.current@ == trial::with_instruction(
            before.current@,
            before.leaves@[before.leaf as int].name@,
            before.phase->options@[b]@,
        )
    }

    /// Takes the mean of the option that was tried.
    pub fn on_evaluated(&mut self, mean: i64) -> (r: MiproAction)
        requires
            old(self).wf(),
            old(self).phase is Trials,
        ensures
            final(self).wf(),
            ({
                let means = old(self).phase->means@.push(mean);
                if means.len() < old(self).config.trials() {
                    &&& r is Next
                    &&& *final(self) == old(self).with_phase(final(self).phase)
                    &&& final(self).phase matches MiproPhase::Trials {
                        minibatch: m,
                        options: o,
                        means: n,
                    } && m == old(self).phase->minibatch && o == old(self).phase->options && n@
                        == means
                } else {
                    &&& r is Draw
                    &&& exists|b: int| #[trigger]
                        trial::is_first_best(means, b) && MiproRun::settles(
                            *old(self),
                            *final(self),
                            b,
                        )
                }
            }),
    {
        let ghost before = *self;
        let mut phase = MiproPhase::Ready;
        std::mem::swap(&mut phase, &mut self.phase);
        match phase {
            MiproPhase::Trials { minibatch, options, means } => {
                let mut all = means;
                all.push(mean);
                let limit: usize = if self.config.num_trials == 0 {
                    1
                } else {
                    self.config.num_trials
                };
                let trials: usize = if self.config.num_candidates <= limit {
                    self.config.num_candidates
                } else {
                    limit
                };
                if all.len() < trials {
                    self.phase = MiproPhase::Trials { minibatch, options, means: all };
                    return MiproAction::Next;
                }
                let b = trial::best_index(&all);
                let name = self.leaves[self.leaf].name.clone();
                self.current.set_instruction(name.as_str(), options[b].as_str());
                let count = self.leaves.len();
                proof {
                    assert(self.leaf < count);
                }
                self.leaf = self.leaf + 1;
                proof {
                    assert(trial::is_first_best(before.phase->means@.push(mean), b as int));
                    assert(MiproRun::settles(before, *self, b as int));
                }
                MiproAction::Draw
            },
            _ => MiproAction::Draw,
        }
    }
}

/// The description of a predictor lists each of its fields, those of its input first.
pub proof fn every_field_of_a_predictor_is_described(leaf: &LeafInfo, r: String, i: int, j: int)
    requires
        call_ensures(format_leaf_fields, (leaf,), r),
        0 <= i < leaf.input_fields@.len(),
        0 <= j < leaf.output_fields@.len(),
        leaf.input_fields@[i].1@.len() > 0,
        leaf.output_fields@[j].1@.len() > 0,
    ensures
        exists|inputs: Seq<char>, outputs: Seq<char>|
            r@ == #[trigger] (inputs + outputs) && text::has_text(
                inputs,
                "  - "@ + leaf.input_fields@[i].0@ + ": "@ + leaf.input_fields@[i].1@ + "\n"@,
            ) && text::has_text(
                outputs,
                "  - "@ + leaf.output_fields@[j].0@ + ": "@ + leaf.output_fields@[j].1@ + "\n"@,
            ),
{
    let a = target::field_lines(leaf.input_fields@, leaf.input_fields@.len());
    let b = target::field_lines(leaf.output_fields@, leaf.output_fields@.len());
    target::lemma_field_is_listed(leaf.input_fields@, i);
    target::lemma_field_is_listed(leaf.output_fields@, j);
    let inputs = "Input Fields:\n"@ + a;
    let outputs = "\nOutput Fields:\n"@ + b;
    text_laws::lemma_ends("Input Fields:\n"@, a);
    text_laws::lemma_ends("\nOutput Fields:\n"@, b);
    text_laws::lemma_within(
        inputs,
        a,
        "  - "@ + leaf.input_fields@[i].0@ + ": "@ + leaf.input_fields@[i].1@ + "\n"@,
    );
    text_laws::lemma_within(
        outputs,
        b,
        "  - "@ + leaf.output_fields@[j].0@ + ": "@ + leaf.output_fields@[j].1@ + "\n"@,
    );
    text_laws::lemma_grouped(inputs, "\nOutput Fields:\n"@, b);
}

/// Every tip stands in the prompt behind its number, in the order of the tips.
pub proof fn every_tip_is_numbered(tips: &PromptingTips, r: String, i: int, j: int)
    requires
        call_ensures(PromptingTips::format_for_prompt, (tips,), r),
        0 <= i < j < tips.tips@.len(),
    ensures
        exists|a: int, b: int|
            a < b && #[trigger] text::occurs_at(
                r@,
                text::decimal((i + 1) as nat) + ". "@ + tips.tips@[i]@,
                a,
            ) && #[trigger] text::occurs_at(
                r@,
                text::decimal((j + 1) as nat) + ". "@ + tips.tips@[j]@,
                b,
            ),
{
    let lines = numbered(text::views(tips.tips@));
    text_laws::lemma_join_at(lines, "\n"@, i);
    text_laws::lemma_join_at(lines, "\n"@, j);
    text_laws::lemma_offsets_grow(lines, "\n"@, i, j);
    reveal_strlit("\n");
    assert(lines[i] == text::decimal((i + 1) as nat) + ". "@ + tips.tips@[i]@);
    assert(lines[j] == text::decimal((j + 1) as nat) + ". "@ + tips.tips@[j]@);
}

proof fn lemma_proposal_front(d: Seq<char>, x: Seq<char>, n: Seq<char>, y: Seq<char>, rest: Seq<char>)
    ensures
        d + x + n + y + rest == d + (x + n + y + rest),
{
    assert(d + x + n + y + rest =~= d + (x + n + y + rest));
}

proof fn lemma_proposal_number(
    d: Seq<char>,
    x: Seq<char>,
    n: Seq<char>,
    y: Seq<char>,
    rest: Seq<char>,
    x1: Seq<char>,
    x2: Seq<char>,
    y1: Seq<char>,
    y2: Seq<char>,
)
    requires
        x == x1 + x2,
        y == y1 + y2,
    ensures
        text::has_text(d + x + n + y + rest, x2 + n + y1),
{
    assert(d + x + n + y + rest =~= (d + x1) + (x2 + n + y1) + (y2 + rest));
    text_laws::lemma_inside(d + x1, x2 + n + y1, y2 + rest);
}

proof fn lemma_proposal(description: Seq<char>, i: nat, hint: Seq<char>)
    ensures
        text::has_prefix(proposal(description, i, hint), description),
        text::has_suffix(proposal(description, i, hint), "Target score >= "@ + hint),
        text::has_text(proposal(description, i, hint), known_tips()[(i % 15) as int]),
        text::has_text(
            proposal(description, i, hint),
            "candidate "@ + text::decimal(i + 1) + ":"@,
        ),
{
    let tip = known_tips()[(i % 15) as int];
    let n = text::decimal(i + 1);
    let x = "\n\nOptimization candidate "@;
    let y = ":\n- "@;
    let z = "\n- Target score >= "@;
    let b = description + x + n + y;
    let rest = tip + (z + hint);
    assert(z == "\n- "@ + "Target score >= "@ && x == "\n\nOptimization "@ + "candidate "@ && y
        == ":"@ + "\n- "@) by {
        reveal_strlit("\n- Target score >= ");
        reveal_strlit("Target score >= ");
        reveal_strlit("\n- ");
        reveal_strlit("\n\nOptimization candidate ");
        reveal_strlit("\n\nOptimization ");
        reveal_strlit("candidate ");
        reveal_strlit(":\n- ");
        reveal_strlit(":");
        assert(z =~= "\n- "@ + "Target score >= "@);
        assert(x =~= "\n\nOptimization "@ + "candidate "@);
        assert(y =~= ":"@ + "\n- "@);
    }
    text_laws::lemma_grouped(b + tip, z, hint);
    text_laws::lemma_grouped(b, tip, z + hint);
    text_laws::lemma_inside(b, tip, z + hint);
    text_laws::lemma_grouped("\n- "@, "Target score >= "@, hint);
    text_laws::lemma_grouped(b + tip, "\n- "@, "Target score >= "@ + hint);
    text_laws::lemma_ends(b + tip + "\n- "@, "Target score >= "@ + hint);
    lemma_proposal_front(description, x, n, y, rest);
    text_laws::lemma_ends(description, x + n + y + rest);
    lemma_proposal_number(
        description,
        x,
        n,
        y,
        rest,
        "\n\nOptimization "@,
        "candidate "@,
        ":"@,
        "\n- "@,
    );
}

/// As many instructions are proposed as were asked for. Each begins with the description, is
/// numbered, gives one of the tips that come with the library (the next one each time, from the
/// first again behind the last) and ends with the score that is to be reached.
pub proof fn proposals_keep_the_description(
    config: &MIPROv2,
    description: &str,
    hint: &str,
    count: usize,
    tips: PromptingTips,
    r: Vec<String>,
    i: int,
)
    requires
        call_ensures(
            MIPROv2::generate_candidate_instructions,
            (config, description, hint, count),
            r,
        ),
        call_ensures(PromptingTips::default_tips, (), tips),
        0 <= i < count,
    ensures
        r@.len() == count,
        text::has_prefix(r@[i]@, description@),
        text::has_suffix(r@[i]@, "Target score >= "@ + hint@),
        text::has_text(r@[i]@, "candidate "@ + text::decimal((i + 1) as nat) + ":"@),
        tips.tips@.len() > 1,
        text::has_text(r@[i]@, tips.tips@[i % (tips.tips@.len() as int)]@),
{
    assert(text::views(r@).len() == r@.len());
    assert(text::views(tips.tips@).len() == tips.tips@.len());
    assert(r@[i]@ == text::views(r@)[i]);
    lemma_proposal(description@, i as nat, hint@);
    assert(tips.tips@[i % 15]@ == text::views(tips.tips@)[i % 15]);
}

/// The turn of a predictor tries the proposals that describe its own fields.
pub proof fn options_describe_the_predictor(
    run: &mut MiproRun,
    minibatch: Vec<usize>,
    r: Result<MiproAction, MiproError>,
    description: String,
    i: int,
)
    requires
        old(run).wf(),
        old(run).leaf < old(run).leaves@.len(),
        call_ensures(MiproRun::begin_predictor, (run, minibatch), r),
        call_ensures(format_leaf_fields, (&old(run).leaves@[old(run).leaf as int],), description),
        0 <= i < old(run).config.num_candidates,
    ensures
        r is Ok,
        final(run).phase is Trials,
        final(run).phase->minibatch@ == minibatch@,
        final(run).phase->options@.len() == old(run).config.num_candidates,
        final(run).phase->means@.len() == 0,
        text::has_prefix(final(run).phase->options@[i]@, description@),
        text::has_suffix(final(run).phase->options@[i]@, "Target score >= "@ + old(run).hint@),
        final(run).current@ == old(run).current@,
{
    let options = final(run).phase->options;
    assert(text::views(options@).len() == options@.len());
    assert(options@[i]@ == text::views(options@)[i]);
    lemma_proposal(description@, i as nat, old(run).hint@);
}

/// A trial evaluates the winner so far with the next option as the instruction of the predictor
/// whose turn it is, on the minibatch of the turn.
pub proof fn every_option_is_tried(
    run: &MiproRun,
    engine: &mut Engine,
    lane: &Lane,
    plan: BatchPlan,
)
    requires
        run.wf(),
        run.phase is Trials,
        call_ensures(
            MiproRun::next_trial,
            (run, engine, lane),
            Ok::<MiproAction, MiproError>(MiproAction::Evaluate { plan }),
        ),
        final(engine).payloads@.len() > old(engine).payloads@.len(),
    ensures
        plan.indices@ == run.phase->minibatch@,
        plan.candidates@ == seq![old(engine).payloads@.len() as usize],
        final(engine).payloads@.last() is Params,
        ({
            let name = run.leaves@[run.leaf as int].name@;
            let tried = final(engine).payloads@.last()->candidate@;
            let at = run.phase->means@.len() as int;
            &&& at < run.phase->options@.len()
            &&& tried.dom() == run.current@.dom().insert(name)
            &&& tried[name].instruction == Some(run.phase->options@[at]@)
            &&& run.current@.dom().contains(name) ==> tried[name].demos
                == run.current@[name].demos
            &&& forall|n: Seq<char>| #[trigger]
                run.current@.dom().contains(n) && n != name ==> tried[n] == run.current@[n]
        }),
{
    let name = run.leaves@[run.leaf as int].name@;
    let content = trial::with_instruction(
        run.current@,
        name,
        run.phase->options@[run.phase->means@.len() as int]@,
    );
    let (row, begun) = choose|row: usize, begun: Result<BatchStep, EngineError>| #[trigger]
        trial::tried(
            *old(engine),
            *final(engine),
            *lane,
            content,
            Some(run.phase->minibatch@),
            row,
            begun,
        ) && match begun {
            Ok(BatchStep::Run(p)) => Ok::<MiproAction, MiproError>(MiproAction::Evaluate { plan })
                == Ok::<MiproAction, MiproError>(MiproAction::Evaluate { plan: p }),
            Ok(BatchStep::BudgetExhausted { needed }) => false,
            Err(e) => false,
        };
    trial::lemma_tried(
        *old(engine),
        *final(engine),
        *lane,
        content,
        Some(run.phase->minibatch@),
        row,
        begun,
    );
    assert(content.dom() =~= run.current@.dom().insert(name));
}

/// When the last option has its mean, the first one with the highest mean becomes the
/// instruction of the predictor; its demos and everything of the other predictors stay.
pub proof fn the_best_option_is_kept(run: &mut MiproRun, mean: i64, r: MiproAction)
    requires
        old(run).wf(),
        old(run).phase is Trials,
        call_ensures(MiproRun::on_evaluated, (run, mean), r),
        final(run).phase !is Trials,
    ensures
        old(run).phase->means@.len() + 1 == old(run).config.num_candidates
            || old(run).phase->means@.len() + 1 == old(run).config.num_trials
            || old(run).config.num_trials == 0,
        final(run).leaf == old(run).leaf + 1,
        exists|b: int|
            0 <= b < old(run).phase->means@.push(mean).len() && {
                let name = old(run).leaves@[old(run).leaf as int].name@;
                let means = old(run).phase->means@.push(mean);
                &&& forall|j: int| 0 <= j < means.len() ==> #[trigger] means[j] <= means[b]
                &&& forall|j: int| 0 <= j < b ==> #[trigger] means[j] < means[b]
                &&& final(run).current@.dom() == old(run).current@.dom().insert(name)
                &&& final(run).current@[name].instruction == Some(
                    #[trigger] old(run).phase->options@[b]@,
                )
                &&& old(run).current@.dom().contains(name) ==> final(run).current@[name].demos
                    == old(run).current@[name].demos
                &&& forall|n: Seq<char>| #[trigger]
                    old(run).current@.dom().contains(n) && n != name ==> final(run).current@[n]
                        == old(run).current@[n]
            },
{
    let name = old(run).leaves@[old(run).leaf as int].name@;
    let means = old(run).phase->means@.push(mean);
    let b = choose|b: int| #[trigger]
        trial::is_first_best(means, b) && MiproRun::settles(*old(run), *final(run), b);
    assert(old(run).leaves@.len() == old(run).leaves.len());
    assert(final(run).current@.dom() =~= old(run).current@.dom().insert(name));
    assert(final(run).current@[name].instruction == Some(old(run).phase->options@[b]@));
}

/// Until every option that is to be tried has its mean, the turn goes on with the next one and
/// nothing else changes.
pub proof fn turns_go_on_until_every_option_was_tried(run: &mut MiproRun, mean: i64, r: MiproAction)
    requires
        old(run).wf(),
        old(run).phase is Trials,
        call_ensures(MiproRun::on_evaluated, (run, mean), r),
        old(run).phase->means@.len() + 1 < old(run).config.num_candidates,
        old(run).phase->means@.len() + 1 < old(run).config.num_trials,
    ensures
        r is Next,
        final(run).current@ == old(run).current@,
        final(run).leaf == old(run).leaf,
        final(run).phase is Trials,
        final(run).phase->options == old(run).phase->options,
        final(run).phase->minibatch == old(run).phase->minibatch,
        final(run).phase->means@ == old(run).phase->means@.push(mean),
{
}

proof fn lemma_hint(traces: Seq<(Score, Arc<Trace>)>, n: nat, i: int)
    requires
        0 <= i < n <= traces.len(),
        traces[i].1.outcome is Some,
        traces[i].1.outcome->0.score.key > 0,
    ensures
        traces[i].1.outcome->0.score.key <= score_hint(traces, n).0,
        exists|k: int|
            0 <= k < n && (#[trigger] traces[k]).1.outcome is Some && score_hint(traces, n) == (
                traces[k].1.outcome->0.score.key,
                traces[k].1.outcome->0.score_text@,
            ),
    decreases n,
{
    let before = score_hint(traces, (n - 1) as nat);
    if i < n - 1 {
        lemma_hint(traces, (n - 1) as nat, i);
        let k = choose|k: int|
            0 <= k < n - 1 && (#[trigger] traces[k]).1.outcome is Some && before == (
                traces[k].1.outcome->0.score.key,
                traces[k].1.outcome->0.score_text@,
            );
        assert(traces[k].1.outcome is Some);
        assert(traces[n - 1] == traces[n - 1]);
    } else if !(traces[i].1.outcome->0.score.key > before.0) {
        lemma_hint_is_of_a_trace(traces, (n - 1) as nat);
    }
}

proof fn lemma_hint_is_of_a_trace(traces: Seq<(Score, Arc<Trace>)>, n: nat)
    requires
        n <= traces.len(),
        score_hint(traces, n).0 > 0,
    ensures
        exists|k: int|
            0 <= k < n && (#[trigger] traces[k]).1.outcome is Some && score_hint(traces, n) == (
                traces[k].1.outcome->0.score.key,
                traces[k].1.outcome->0.score_text@,
            ),
    decreases n,
{
    if n > 0 {
        let before = score_hint(traces, (n - 1) as nat);
        if score_hint(traces, n) == before {
            lemma_hint_is_of_a_trace(traces, (n - 1) as nat);
            let k = choose|k: int|
                0 <= k < n - 1 && (#[trigger] traces[k]).1.outcome is Some && before == (
                    traces[k].1.outcome->0.score.key,
                    traces[k].1.outcome->0.score_text@,
                );
            assert(traces[k].1.outcome is Some);
        } else {
            assert(traces[n - 1].1.outcome is Some);
        }
    }
}

/// The score that candidates are told to reach is one that a rollout of the teacher pass reached,
/// and none reached more.
pub proof fn the_best_score_of_the_teacher_is_the_hint(
    run: &mut MiproRun,
    eval: &CandidateEval,
    r: MiproAction,
    i: int,
)
    requires
        old(run).wf(),
        old(run).phase is Teacher,
        call_ensures(MiproRun::on_teacher_evaluated, (run, eval), r),
        0 <= i < eval.rollouts@.len(),
        eval.rollouts@[i].trace is Some,
        eval.rollouts@[i].trace->0.outcome is Some,
        eval.rollouts@[i].trace->0.outcome->0.score.key > 0,
    ensures
        exists|k: int|
            0 <= k < eval.rollouts@.len() && (#[trigger] eval.rollouts@[k]).trace is Some
                && eval.rollouts@[k].trace->0.outcome is Some && final(run).hint@
                == eval.rollouts@[k].trace->0.outcome->0.score_text@
                && eval.rollouts@[k].trace->0.outcome->0.score.key
                >= eval.rollouts@[i].trace->0.outcome->0.score.key,
{
    let traces = harvest::traced(eval.rollouts@, eval.rollouts@.len());
    let cands = choose|cands: Seq<DemoCandidate>| #[trigger]
        MiproRun::taught(*old(run), *final(run), cands, *eval);
    let at = harvest::lemma_traced_has(eval.rollouts@, eval.rollouts@.len(), i);
    lemma_hint(traces, traces.len(), at);
    let k = choose|k: int|
        0 <= k < traces.len() && (#[trigger] traces[k]).1.outcome is Some && score_hint(
            traces,
            traces.len(),
        ) == (traces[k].1.outcome->0.score.key, traces[k].1.outcome->0.score_text@);
    let from = harvest::lemma_traced_is_of(eval.rollouts@, eval.rollouts@.len(), k);
    assert(eval.rollouts@[from].trace is Some);
}

/// A run that its budget cut short says how many rollouts it needed, and one that the engine
/// stopped says what the engine said.
pub proof fn failures_say_what_was_needed(
    e: &MiproError,
    r: String,
    inner: &EngineError,
    said: String,
)
    requires
        call_ensures(MiproError::message, (e,), r),
        call_ensures(EngineError::message, (inner,), said),
    ensures
        *e matches MiproError::TeacherBudget { needed } ==> text::has_text(
            r@,
            text::decimal(needed as nat),
        ),
        *e matches MiproError::TrialBudget { needed } ==> text::has_text(
            r@,
            text::decimal(needed as nat),
        ),
        *e == MiproError::Engine(*inner) ==> r@ == said@,
{
    match *e {
        MiproError::TeacherBudget { needed } => {
            text_laws::lemma_inside(
                "budget exhausted ("@,
                text::decimal(needed as nat),
                " rollouts needed) during the teacher pass"@,
            );
        },
        MiproError::TrialBudget { needed } => {
            text_laws::lemma_inside(
                "budget exhausted ("@,
                text::decimal(needed as nat),
                " rollouts needed) during trial evaluation"@,
            );
        },
        _ => {},
    }
}

/// The limits of a search are those of its engine, and it evaluates with as many at a time as it
/// says, with one where it says none.
pub proof fn limits_are_those_of_the_search(g: &MIPROv2, r: EngineConfig)
    requires
        call_ensures(MIPROv2::engine_config, (g,), r),
    ensures
        r.budget.max_metric_calls is None,
        r.budget.max_lm_calls is None,
        r.budget.max_tokens is None,
        g.eval_concurrency > 0 ==> r.concurrency == g.eval_concurrency,
        g.eval_concurrency == 0 ==> r.concurrency == 1,
{
}

/// After the teacher pass each predictor has at most as many demos as are allowed, and each shows a
/// good call of that predictor in the pass. No instruction is changed by them.
pub proof fn demos_of_the_teacher_show_good_calls(
    run: &mut MiproRun,
    eval: &CandidateEval,
    r: MiproAction,
    name: Seq<char>,
    j: int,
)
    requires
        old(run).wf(),
        old(run).phase is Teacher,
        call_ensures(MiproRun::on_teacher_evaluated, (run, eval), r),
        final(run).current@.dom().contains(name),
        forall|a: int, b: int|
            0 <= a < eval.rollouts@.len() && eval.rollouts@[a].trace is Some && 0 <= b
                < eval.rollouts@[a].trace->0.spans@.len()
                && eval.rollouts@[a].trace->0.spans@[b].input is Some
                && eval.rollouts@[a].trace->0.spans@[b].output is Some ==> json::distinct_names(
                json::members_view((#[trigger] eval.rollouts@[a].trace->0.spans@[b]).input->0@),
            ) && json::distinct_names(
                json::members_view(eval.rollouts@[a].trace->0.spans@[b].output->0@),
            ),
    ensures
        final(run).current@[name].instruction is None,
        !final(run).current@[name].clear_instruction,
        final(run).current@[name].demos is Some,
        0 < final(run).current@[name].demos->0.len() <= old(run).config.max_bootstrapped_demos,
        0 <= j < final(run).current@[name].demos->0.len() ==> exists|a: int, b: int|
            0 <= a < eval.rollouts@.len() && eval.rollouts@[a].trace is Some && 0 <= b
                < eval.rollouts@[a].trace->0.spans@.len() && (
            #[trigger] eval.rollouts@[a].trace->0.spans@[b]).component@ == name
                && harvest::good_call(
                eval.rollouts@[a].eval.score,
                eval.rollouts@[a].trace->0.spans@[b],
                old(run).config.min_demo_score,
            ) && harvest::shows_call(
                final(run).current@[name].demos->0[j],
                eval.rollouts@[a].trace->0.spans@[b],
            ),
{
    let cands = choose|cands: Seq<DemoCandidate>| #[trigger]
        MiproRun::taught(*old(run), *final(run), cands, *eval);
    let max = old(run).config.max_bootstrapped_demos as nat;
    let min = old(run).config.min_demo_score;
    let rows = final(run).current@[name].demos->0;
    assert(rows == harvest::kept_rows(cands, name, max));
    harvest::kept_demos_are_capped_and_distinct(cands, name, max);
    if 0 <= j < rows.len() {
        let traces = harvest::traced(eval.rollouts@, eval.rollouts@.len());
        let at = harvest::kept(cands, name, max)[j];
        assert(cands[at].predictor@ == name);
        let from = harvest::lemma_demo_is_of(traces, min, traces.len(), at);
        let a = harvest::lemma_traced_is_of(eval.rollouts@, eval.rollouts@.len(), from.0);
        let span = eval.rollouts@[a].trace->0.spans@[from.1];
        assert(harvest::made_from(cands[at], eval.rollouts@[a].eval.score, span));
        harvest::lemma_row_shows_call(span);
        assert(rows[j] == json::members_view(cands[at].row@));
    }
}

/// A predictor that made a good call in the teacher pass has demos after it.
pub proof fn good_calls_of_the_teacher_become_demos(
    run: &mut MiproRun,
    eval: &CandidateEval,
    r: MiproAction,
    a: int,
    b: int,
)
    requires
        old(run).wf(),
        old(run).phase is Teacher,
        old(run).config.max_bootstrapped_demos > 0,
        call_ensures(MiproRun::on_teacher_evaluated, (run, eval), r),
        0 <= a < eval.rollouts@.len(),
        eval.rollouts@[a].trace is Some,
        0 <= b < eval.rollouts@[a].trace->0.spans@.len(),
        harvest::good_call(
            eval.rollouts@[a].eval.score,
            eval.rollouts@[a].trace->0.spans@[b],
            old(run).config.min_demo_score,
        ),
    ensures
        final(run).current@.dom().contains(eval.rollouts@[a].trace->0.spans@[b].component@),
{
    let cands = choose|cands: Seq<DemoCandidate>| #[trigger]
        MiproRun::taught(*old(run), *final(run), cands, *eval);
    let max = old(run).config.max_bootstrapped_demos as nat;
    let min = old(run).config.min_demo_score;
    let traces = harvest::traced(eval.rollouts@, eval.rollouts@.len());
    let span = eval.rollouts@[a].trace->0.spans@[b];
    let t = harvest::lemma_traced_has(eval.rollouts@, eval.rollouts@.len(), a);
    let k = harvest::lemma_demo_has(traces, min, traces.len(), t, b);
    assert(harvest::made_from(cands[k], traces[t].0, span));
    harvest::lemma_some_are_kept(cands, max, k);
}

} // verus!
