//! Stepwise improvement from good and bad rollouts: the run of SIMBA as steps between
//! evaluations.

use rand::rngs::StdRng;
use std::sync::Arc;
use vstd::prelude::*;

use crate::json;
use crate::json::{JsonMap, JsonView};
use crate::names;
use crate::optimizer::engine;
use crate::optimizer::engine::{Candidate, SlotView};
use crate::optimizer::harvest;
use crate::optimizer::harvest::DemoCandidate;
use crate::optimizer::rollouts;
use crate::optimizer::rollouts::{
    BatchPlan,
    BatchStep,
    CandidateEval,
    Engine,
    EngineConfig,
    EngineError,
    GateOutcome,
    GateStep,
    Lane,
};
use crate::optimizer::store;
use crate::optimizer::store::{RolloutStore, Stored};
use crate::optimizer::summary;
use crate::optimizer::target;
use crate::optimizer::target::LeafInfo;
use crate::optimizer::trial;
use crate::optimizer::trial::Mean;
use crate::optimizer::OptimizerCommon;
use crate::random;
use crate::text;
use crate::text_laws;
use crate::trace;
use crate::trace::{Eval, Score, Span, Trace};

verus! {

/// How a step changed the candidate.
#[derive(Clone, Copy, Debug, PartialEq, Eq, Structural)]
pub enum SimbaMove {
    AppendDemo,
    AppendRule,
}

/// What came of a step.
#[derive(Debug)]
pub struct SimbaStep {
    pub step: usize,
    pub move_kind: SimbaMove,
    pub parent_minibatch_score: Mean,
    pub child_minibatch_score: Mean,
    pub accepted: bool,
    pub full_score: Option<Mean>,
}

/// The settings of SIMBA. `min_demo_score` is the order key of a score, and `reflects` says
/// that a model proposes the rules.
#[derive(Clone, Copy, Debug, PartialEq, Eq, Structural)]
pub struct SIMBA {
    pub max_steps: usize,
    pub minibatch_size: usize,
    pub max_demos: usize,
    pub min_demo_score: i64,
    pub reflects: bool,
    pub max_metric_calls: Option<usize>,
    pub max_lm_calls: Option<usize>,
    pub eval_concurrency: usize,
    pub seed: Option<u64>,
}

impl Default for SIMBA {
    fn default() -> (r: Self)
        ensures
            r == (SIMBA {
                max_steps: 8,
                minibatch_size: 8,
                max_demos: 4,
                min_demo_score: trace::FULL_SCORE,
                reflects: false,
                max_metric_calls: None,
                max_lm_calls: None,
                eval_concurrency: rollouts::DEFAULT_EVAL_CONCURRENCY,
                seed: None,
            }),
    {
        SIMBA {
            max_steps: 8,
            minibatch_size: 8,
            max_demos: 4,
            min_demo_score: trace::FULL_SCORE,
            reflects: false,
            max_metric_calls: None,
            max_lm_calls: None,
            eval_concurrency: rollouts::DEFAULT_EVAL_CONCURRENCY,
            seed: None,
        }
    }
}

impl SIMBA {
    pub open spec fn common_spec(&self) -> OptimizerCommon {
        OptimizerCommon {
            eval_concurrency: self.eval_concurrency,
            max_metric_calls: self.max_metric_calls,
            max_lm_calls: self.max_lm_calls,
            cache_salt: 0,
            seed: self.seed,
        }
    }

    pub fn common(&self) -> (r: OptimizerCommon)
        ensures
            r == self.common_spec(),
    {
        OptimizerCommon {
            eval_concurrency: self.eval_concurrency,
            max_metric_calls: self.max_metric_calls,
            max_lm_calls: self.max_lm_calls,
            cache_salt: 0,
            seed: self.seed,
        }
    }

    pub fn engine_config(&self) -> (r: EngineConfig)
        ensures
            r == self.common_spec().engine_config_spec(),
    {
        self.common().engine_config()
    }
}

/// How many of the first `n` calls are of the component.
pub open spec fn calls_of(spans: Seq<Span>, component: Seq<char>, n: nat) -> nat
    decreases n,
{
    if n == 0 || n > spans.len() {
        0
    } else {
        calls_of(spans, component, (n - 1) as nat) + if spans[n - 1].component@ == component {
            1nat
        } else {
            0nat
        }
    }
}

fn count_calls(spans: &Vec<Span>, component: &str) -> (r: usize)
    ensures
        r == calls_of(spans@, component@, spans@.len()),
{
    let mut n: usize = 0;
    let mut i: usize = 0;
    while i < spans.len()
        invariant
            n <= i <= spans@.len(),
            n == calls_of(spans@, component@, i as nat),
        decreases spans@.len() - i,
    {
        if text::text_eq(spans[i].component.as_str(), component) {
            n += 1;
        }
        i += 1;
    }
    n
}

pub open spec fn leaf_calls(leaf: LeafInfo, spans: Seq<Span>) -> nat {
    calls_of(spans, leaf.name@, spans.len())
}

/// The leaf that a rule is written for: the first of those that the trace calls most often,
/// and the first leaf when it calls none or there is no trace.
pub open spec fn is_rule_target(
    leaves: Seq<LeafInfo>,
    worst: Option<Arc<Trace>>,
    r: int,
) -> bool {
    &&& 0 <= r < leaves.len()
    &&& match worst {
        None => r == 0,
        Some(t) => {
            &&& forall|j: int|
                0 <= j < leaves.len() ==> leaf_calls(#[trigger] leaves[j], t.spans@) <= leaf_calls(
                    leaves[r],
                    t.spans@,
                )
            &&& forall|j: int|
                0 <= j < r ==> leaf_calls(#[trigger] leaves[j], t.spans@) < leaf_calls(
                    leaves[r],
                    t.spans@,
                )
        },
    }
}

pub fn rule_target(leaves: &Vec<LeafInfo>, worst: &Option<Arc<Trace>>) -> (r: usize)
    requires
        leaves@.len() > 0,
    ensures
        is_rule_target(leaves@, *worst, r as int),
{
    match worst {
        None => 0,
        Some(t) => {
            let mut at: usize = 0;
            let mut most: usize = count_calls(&t.spans, leaves[0].name.as_str());
            let mut i: usize = 1;
            while i < leaves.len()
                invariant
                    at < i <= leaves@.len(),
                    most == leaf_calls(leaves@[at as int], t.spans@),
                    forall|j: int|
                        0 <= j < i ==> leaf_calls(#[trigger] leaves@[j], t.spans@) <= most,
                    forall|j: int|
                        0 <= j < at ==> leaf_calls(#[trigger] leaves@[j], t.spans@) < most,
                decreases leaves@.len() - i,
            {
                let count = count_calls(&t.spans, leaves[i].name.as_str());
                if count > most {
                    most = count;
                    at = i;
                }
                i += 1;
            }
            at
        },
    }
}

/// The hash by which rows are told apart.
pub open spec fn row_hash(row: Seq<(Seq<char>, JsonView)>) -> u64 {
    json::hash_of(json::canonical(JsonView::Object(row)))
}

pub open spec fn has_row(rows: Seq<Seq<(Seq<char>, JsonView)>>, hash: u64) -> bool {
    exists|i: int| 0 <= i < rows.len() && row_hash(#[trigger] rows[i]) == hash
}

/// The rows with those of the first `n` new ones behind that are not among them.
pub open spec fn appended(
    rows: Seq<Seq<(Seq<char>, JsonView)>>,
    new: Seq<Seq<(Seq<char>, JsonView)>>,
    n: nat,
) -> Seq<Seq<(Seq<char>, JsonView)>>
    decreases n,
{
    if n == 0 || n > new.len() {
        rows
    } else if has_row(rows, row_hash(new[n - 1])) {
        appended(rows, new, (n - 1) as nat)
    } else {
        appended(rows, new, (n - 1) as nat).push(new[n - 1])
    }
}

/// The last `max` rows, at least one.
pub open spec fn newest(rows: Seq<Seq<(Seq<char>, JsonView)>>, max: nat) -> Seq<
    Seq<(Seq<char>, JsonView)>,
> {
    let cap = if max == 0 {
        1nat
    } else {
        max
    };
    if rows.len() <= cap {
        rows
    } else {
        rows.skip(rows.len() - cap)
    }
}

/// The demos that a predictor has: those of the candidate, or else those of its leaf.
pub open spec fn current_demos(
    leaves: Seq<LeafInfo>,
    current: Map<Seq<char>, SlotView>,
    name: Seq<char>,
) -> Seq<Seq<(Seq<char>, JsonView)>> {
    match engine::slot_of(current, name).demos {
        Some(rows) => rows,
        None => {
            let at = target::leaf_index(leaves, name, 0);
            if at < leaves.len() {
                json::rows_view(leaves[at].demos@)
            } else {
                Seq::empty()
            }
        },
    }
}

fn row_hash_of(row: &JsonMap) -> (r: u64)
    ensures
        r == row_hash(json::members_view(row@)),
{
    let object = json::object(json::clone_map(row));
    json::canonical_hash(&object)
}

fn contains_row(rows: &Vec<JsonMap>, hash: u64) -> (r: bool)
    ensures
        r == has_row(json::rows_view(rows@), hash),
{
    let mut i: usize = 0;
    while i < rows.len()
        invariant
            i <= rows@.len(),
            forall|k: int| 0 <= k < i ==> row_hash(#[trigger] json::rows_view(rows@)[k]) != hash,
        decreases rows@.len() - i,
    {
        let h = row_hash_of(&rows[i]);
        proof {
            assert(json::rows_view(rows@)[i as int] == json::members_view(rows@[i as int]@));
        }
        if h == hash {
            return true;
        }
        i += 1;
    }
    false
}

fn append_rows(rows: Vec<JsonMap>, new: &Vec<JsonMap>) -> (r: (Vec<JsonMap>, bool))
    ensures
        json::rows_view(r.0@) == appended(
            json::rows_view(rows@),
            json::rows_view(new@),
            new@.len(),
        ),
        r.1 == (r.0@.len() > rows@.len()),
        r.0@.len() >= rows@.len(),
{
    let mut out = json::clone_rows(&rows);
    let mut i: usize = 0;
    proof {
        assert(json::rows_view(out@).len() == out@.len());
        assert(json::rows_view(rows@).len() == rows@.len());
    }
    while i < new.len()
        invariant
            i <= new@.len(),
            out@.len() >= rows@.len(),
            json::rows_view(out@) == appended(
                json::rows_view(rows@),
                json::rows_view(new@),
                i as nat,
            ),
        decreases new@.len() - i,
    {
        let hash = row_hash_of(&new[i]);
        proof {
            assert(json::rows_view(new@)[i as int] == json::members_view(new@[i as int]@));
        }
        if !contains_row(&rows, hash) {
            let ghost before = out@;
            let row = json::clone_map(&new[i]);
            out.push(row);
            proof {
                assert(json::rows_view(out@) =~= json::rows_view(before).push(
                    json::members_view(row@),
                ));
            }
        }
        i += 1;
    }
    let grown = out.len() > rows.len();
    (out, grown)
}

fn keep_newest(rows: Vec<JsonMap>, max: usize) -> (r: Vec<JsonMap>)
    ensures
        json::rows_view(r@) == newest(json::rows_view(rows@), max as nat),
{
    let cap: usize = if max == 0 {
        1
    } else {
        max
    };
    let mut out = rows;
    if out.len() > cap {
        let at = out.len() - cap;
        let tail = out.split_off(at);
        proof {
            assert(json::rows_view(tail@) =~= json::rows_view(rows@).skip(at as int));
        }
        tail
    } else {
        out
    }
}

/// The candidate with the demos of the first `n` harvested predictors appended.
pub open spec fn with_demos(
    leaves: Seq<LeafInfo>,
    current: Map<Seq<char>, SlotView>,
    harvested: Seq<(String, Vec<JsonMap>)>,
    max: nat,
    n: nat,
) -> Map<Seq<char>, SlotView>
    decreases n,
{
    if n == 0 || n > harvested.len() {
        current
    } else {
        let before = with_demos(leaves, current, harvested, max, (n - 1) as nat);
        let name = harvested[n - 1].0@;
        let rows = current_demos(leaves, current, name);
        let new = json::rows_view(harvested[n - 1].1@);
        let all = appended(rows, new, new.len());
        if all.len() > rows.len() {
            before.insert(
                name,
                (SlotView {
                    demos: Some(newest(all, max)),
                    ..engine::slot_of(before, name)
                }),
            )
        } else {
            before
        }
    }
}

/// Some of the first `n` harvested predictors gains a demo.
pub open spec fn gains(
    leaves: Seq<LeafInfo>,
    current: Map<Seq<char>, SlotView>,
    harvested: Seq<(String, Vec<JsonMap>)>,
    n: nat,
) -> bool
    decreases n,
{
    if n == 0 || n > harvested.len() {
        false
    } else {
        let rows = current_demos(leaves, current, harvested[n - 1].0@);
        let new = json::rows_view(harvested[n - 1].1@);
        gains(leaves, current, harvested, (n - 1) as nat) || appended(
            rows,
            new,
            new.len(),
        ).len() > rows.len()
    }
}

/// The harvest of one rollout: one demo for each predictor that has any.
pub open spec fn is_harvest(
    harvested: Seq<(String, Vec<JsonMap>)>,
    score: Score,
    trace: Arc<Trace>,
    min_score: i64,
) -> bool {
    exists|cands: Seq<DemoCandidate>| #[trigger]
        harvest::all_made_from(
            cands,
            harvest::demos_of_rollouts(seq![(score, trace)], min_score, 1),
        ) && names::sorted_names(harvested) && (forall|n: Seq<char>| #[trigger]
            names::map_of(harvested).dom().contains(n) <==> harvest::kept_rows(
                cands,
                n,
                1,
            ).len() > 0) && (forall|n: Seq<char>| #[trigger]
            names::map_of(harvested).dom().contains(n) ==> json::rows_view(
                names::map_of(harvested)[n]@,
            ) == harvest::kept_rows(cands, n, 1))
}

impl SIMBA {
    /// The candidate with the demos of a good rollout, `None` when it has nothing new.
    pub fn append_demo_child(
        &self,
        leaves: &Vec<LeafInfo>,
        current: &Candidate,
        score: Score,
        trace: &Arc<Trace>,
    ) -> (r: Option<Candidate>)
        requires
            current.wf(),
        ensures
            exists|harvested: Seq<(String, Vec<JsonMap>)>| #[trigger]
                is_harvest(harvested, score, *trace, self.min_demo_score) && match r {
                    Some(child) => gains(leaves@, current@, harvested, harvested.len())
                        && child.wf() && child@ == with_demos(
                        leaves@,
                        current@,
                        harvested,
                        self.max_demos as nat,
                        harvested.len(),
                    ),
                    None => !gains(leaves@, current@, harvested, harvested.len()),
                },
    {
        let mut one: Vec<(Score, Arc<Trace>)> = Vec::new();
        one.push((score, trace::share(trace)));
        proof {
            assert(one@ =~= seq![(score, *trace)]);
        }
        let cands = harvest::collect_demo_candidates(&one, self.min_demo_score);
        let harvested = harvest::select_demos(&cands, 1);
        proof {
            assert(harvest::all_made_from(
                cands@,
                harvest::demos_of_rollouts(seq![(score, *trace)], self.min_demo_score, 1),
            ));
            assert(is_harvest(harvested@, score, *trace, self.min_demo_score));
        }
        let mut child = current.clone();
        let mut changed: bool = false;
        let mut i: usize = 0;
        while i < harvested.len()
            invariant
                i <= harvested@.len(),
                current.wf(),
                child.wf(),
                child@ == with_demos(
                    leaves@,
                    current@,
                    harvested@,
                    self.max_demos as nat,
                    i as nat,
                ),
                changed == gains(leaves@, current@, harvested@, i as nat),
            decreases harvested@.len() - i,
        {
            let name = harvested[i].0.as_str();
            let rows = match current.demos_of(name) {
                Some(rows) => json::clone_rows(rows),
                None => match target::find_leaf(leaves, name) {
                    Some(at) => json::clone_rows(&leaves[at].demos),
                    None => {
                        let none: Vec<JsonMap> = Vec::new();
                        proof {
                            assert(json::rows_view(none@) =~= Seq::empty());
                        }
                        none
                    },
                },
            };
            let ghost have = json::rows_view(rows@);
            let (all, grown) = append_rows(rows, &harvested[i].1);
            if grown {
                let kept = keep_newest(all, self.max_demos);
                child.set_demos(name, kept);
                changed = true;
            }
            i += 1;
        }
        if changed {
            Some(child)
        } else {
            None
        }
    }
}

/// What a reflecting model is asked.
#[derive(Debug)]
pub struct IntrospectRollouts {
    pub task_description: String,
    pub current_instruction: String,
    pub better_rollout: String,
    pub worse_rollout: String,
}

/// What the driver of a run does next.
#[derive(Debug)]
pub enum SimbaAction {
    /// Run the pending rollouts of the plan, commit them, and hand back the evaluation.
    Evaluate { plan: BatchPlan },
    /// Go on with `next_step`.
    Draw,
    /// Hand back the average of the scores.
    Average { scores: Vec<Score> },
    /// Ask the reflecting model, and hand back its reply.
    Introspect { prompt: IntrospectRollouts },
    /// The run is over; install the candidate when there is one.
    Finish { winner: Option<Candidate> },
}

/// Why a run fails.
#[derive(Debug)]
pub enum SimbaError {
    NoPredictors,
    BudgetTooSmall { needed: usize },
    Engine(EngineError),
}

impl SimbaError {
    pub open spec fn text(&self) -> Seq<char> {
        match self {
            SimbaError::NoPredictors => "no optimizable predictors found"@,
            SimbaError::BudgetTooSmall { needed } => "budget too small for the baseline pass ("@
                + text::decimal(*needed as nat) + " rollouts needed)"@,
            SimbaError::Engine(e) => e.text(),
        }
    }

    pub fn message(&self) -> (r: String)
        ensures
            r@ == self.text(),
    {
        match self {
            SimbaError::NoPredictors => "no optimizable predictors found".to_owned(),
            SimbaError::BudgetTooSmall { needed } => {
                let mut out = "budget too small for the baseline pass (".to_owned();
                text::push_decimal(&mut out, *needed as u64);
                out.append(" rollouts needed)");
                out
            },
            SimbaError::Engine(e) => e.message(),
        }
    }
}

/// A child that is being evaluated.
#[derive(Debug)]
pub struct SimbaTrial {
    pub child: Candidate,
    pub move_kind: SimbaMove,
    pub row: usize,
    pub threshold: Mean,
}

/// What a run waits for.
#[allow(inconsistent_fields)]
#[derive(Debug)]
pub enum SimbaPhase {
    /// The baseline has to be begun.
    Fresh,
    /// The evaluation of the program as it is.
    Baseline,
    /// The next step.
    Ready,
    /// The average of the known scores of a minibatch.
    Averaging { minibatch: Vec<usize> },
    /// The reply of the reflecting model.
    Introspecting { minibatch: Vec<usize>, threshold: Mean, leaf: usize, worst: usize },
    /// The evaluation of a child on the minibatch.
    Minibatch { trial: SimbaTrial },
    /// The evaluation of a promoted child on all examples.
    Full { trial: SimbaTrial, minibatch: CandidateEval, score: Mean },
    /// Nothing: the run is over.
    Done,
}

/// A run of SIMBA.
#[derive(Debug)]
pub struct SimbaRun {
    pub config: SIMBA,
    pub leaves: Vec<LeafInfo>,
    pub num_examples: usize,
    pub current: Candidate,
    pub store: RolloutStore,
    pub baseline_score: Mean,
    pub final_score: Mean,
    pub step: usize,
    pub steps: Vec<SimbaStep>,
    pub accepted: usize,
    pub rejected: usize,
    pub phase: SimbaPhase,
}

/// How a step ends: a child that beats the current candidate on the minibatch is promoted, and
/// then scored on all examples; another one is not.
pub open spec fn ended(step: SimbaStep) -> bool {
    &&& step.accepted <==> step.full_score is Some
    &&& step.accepted <==> step.child_minibatch_score.key > step.parent_minibatch_score.key
}

/// How many steps promoted their child.
pub open spec fn promotions(steps: Seq<SimbaStep>) -> nat
    decreases steps.len(),
{
    if steps.len() == 0 {
        0
    } else {
        promotions(steps.drop_last()) + if steps.last().accepted {
            1nat
        } else {
            0nat
        }
    }
}

/// The score on all examples of the last child that was promoted.
pub open spec fn last_full(steps: Seq<SimbaStep>) -> Option<Mean>
    decreases steps.len(),
{
    if steps.len() == 0 {
        None
    } else if steps.last().accepted {
        steps.last().full_score
    } else {
        last_full(steps.drop_last())
    }
}

/// Every instruction that is set begins with the one that a predictor of the name started from.
pub open spec fn rooted(leaves: Seq<LeafInfo>, content: Map<Seq<char>, SlotView>) -> bool {
    forall|n: Seq<char>| #[trigger]
        content.dom().contains(n) && content[n].instruction is Some ==> grown_from(
            leaves,
            n,
            content[n].instruction->0,
        )
}

/// The instruction begins with the one that a predictor of the name started from.
pub open spec fn grown_from(leaves: Seq<LeafInfo>, name: Seq<char>, instruction: Seq<char>) -> bool {
    exists|k: int|
        0 <= k < leaves.len() && (#[trigger] leaves[k]).name@ == name && text::has_prefix(
            instruction,
            leaves[k].instruction@,
        )
}

proof fn lemma_demos_keep_instructions(
    leaves: Seq<LeafInfo>,
    current: Map<Seq<char>, SlotView>,
    harvested: Seq<(String, Vec<JsonMap>)>,
    max: nat,
    n: nat,
)
    ensures
        ({
            let child = with_demos(leaves, current, harvested, max, n);
            &&& forall|name: Seq<char>|
                (#[trigger] engine::slot_of(child, name)).instruction == engine::slot_of(
                    current,
                    name,
                ).instruction && engine::slot_of(child, name).clear_instruction == engine::slot_of(
                    current,
                    name,
                ).clear_instruction
            &&& rooted(leaves, current) ==> rooted(leaves, child)
        }),
    decreases n,
{
    if n > 0 && n <= harvested.len() {
        lemma_demos_keep_instructions(leaves, current, harvested, max, (n - 1) as nat);
        let before = with_demos(leaves, current, harvested, max, (n - 1) as nat);
        let child = with_demos(leaves, current, harvested, max, n);
        let changed = harvested[n - 1].0@;
        assert forall|name: Seq<char>|
            (#[trigger] engine::slot_of(child, name)).instruction == engine::slot_of(
                current,
                name,
            ).instruction && engine::slot_of(child, name).clear_instruction == engine::slot_of(
                current,
                name,
            ).clear_instruction by {
            assert(engine::slot_of(before, name).instruction == engine::slot_of(
                current,
                name,
            ).instruction);
            if name != changed {
                assert(child.dom().contains(name) == before.dom().contains(name));
            }
        }
        if rooted(leaves, current) {
            assert forall|name: Seq<char>| #[trigger]
                child.dom().contains(name) && child[name].instruction is Some implies grown_from(
                leaves,
                name,
                child[name].instruction->0,
            ) by {
                assert(engine::slot_of(child, name) == child[name]);
                assert(engine::slot_of(before, name).instruction == child[name].instruction);
                assert(before.dom().contains(name));
            }
        }
    }
}

impl SimbaRun {
    /// Every step has ended one way or the other, and the counts are those of the steps. The final
    /// score is that of the last promotion or, without one, that of the baseline; and without one
    /// the candidate changes nothing. The instructions of the candidate and of a child begin with
    /// those that the predictors started from. Positions are in range, and behind the baseline every
    /// example is known.
    pub open spec fn wf(&self) -> bool {
        &&& self.leaves@.len() > 0
        &&& self.current.wf()
        &&& rooted(self.leaves@, self.current@)
        &&& self.store@.len() == self.num_examples
        &&& self.step <= self.config.max_steps
        &&& self.accepted + self.rejected <= self.step
        &&& self.accepted + self.rejected == self.steps@.len()
        &&& self.accepted == promotions(self.steps@)
        &&& self.accepted == 0 ==> self.current@ == Map::<Seq<char>, SlotView>::empty()
        &&& forall|i: int| 0 <= i < self.steps@.len() ==> ended(#[trigger] self.steps@[i])
        &&& self.scored() ==> self.final_score == (match last_full(self.steps@) {
            Some(mean) => mean,
            None => self.baseline_score,
        })
        &&& self.phase is Fresh || self.phase is Baseline ==> self.steps@.len() == 0
        &&& match self.phase {
            SimbaPhase::Fresh => true,
            SimbaPhase::Baseline => true,
            SimbaPhase::Ready => store::complete(self.store@),
            SimbaPhase::Averaging { minibatch } => store::complete(self.store@) && self.step
                < self.config.max_steps && self.is_minibatch(minibatch@),
            SimbaPhase::Introspecting { minibatch, leaf, worst, .. } => store::complete(
                self.store@,
            ) && self.step < self.config.max_steps && self.is_minibatch(minibatch@) && leaf
                < self.leaves@.len() && worst < self.num_examples,
            SimbaPhase::Minibatch { trial } => store::complete(self.store@) && self.step
                < self.config.max_steps && trial.child.wf() && rooted(
                self.leaves@,
                trial.child@,
            ),
            SimbaPhase::Full { trial, minibatch, score } => store::complete(self.store@)
                && self.step < self.config.max_steps && trial.child.wf() && rooted(
                self.leaves@,
                trial.child@,
            ) && store::fits(
                minibatch.rollouts@,
                self.num_examples as nat,
            ) && score.key > trial.threshold.key,
            SimbaPhase::Done => true,
        }
    }

    /// The baseline was scored.
    pub open spec fn scored(&self) -> bool {
        !(self.phase is Fresh) && !(self.phase is Baseline)
    }

    /// Examples, at least one.
    pub open spec fn is_minibatch(&self, minibatch: Seq<usize>) -> bool {
        minibatch.len() > 0 && forall|i: int|
            0 <= i < minibatch.len() ==> (#[trigger] minibatch[i]) < self.num_examples
    }

    pub open spec fn with_phase(self, phase: SimbaPhase) -> SimbaRun {
        SimbaRun { phase, ..self }
    }

    /// A run over a target.
    pub fn new(config: SIMBA, leaves: Vec<LeafInfo>, num_examples: usize) -> (r: Result<
        Self,
        SimbaError,
    >)
        ensures
            match r {
                Ok(run) => {
                    &&& leaves@.len() > 0
                    &&& run.wf()
                    &&& run.config == config
                    &&& run.leaves == leaves
                    &&& run.num_examples == num_examples
                    &&& run.current@ == Map::<Seq<char>, SlotView>::empty()
                    &&& run.store@ == store::unknown(num_examples as nat)
                    &&& run.step == 0
                    &&& run.steps@.len() == 0
                    &&& run.accepted == 0
                    &&& run.rejected == 0
                    &&& run.phase is Fresh
                },
                Err(e) => leaves@.len() == 0 && e is NoPredictors,
            },
    {
        if leaves.len() == 0 {
            return Err(SimbaError::NoPredictors);
        }
        Ok(
            SimbaRun {
                config,
                leaves,
                num_examples,
                current: Candidate::new(),
                store: store::empty_store(num_examples),
                baseline_score: Mean { key: 0, text: String::new() },
                final_score: Mean { key: 0, text: String::new() },
                step: 0,
                steps: Vec::new(),
                accepted: 0,
                rejected: 0,
                phase: SimbaPhase::Fresh,
            },
        )
    }

    /// Begins the evaluation of the program as it is.
    pub fn start(&mut self, engine: &mut Engine, lane: &Lane) -> (r: Result<
        SimbaAction,
        SimbaError,
    >)
        requires
            old(self).wf(),
            old(self).phase is Fresh,
            old(engine).wf(),
            old(engine).payloads@.len() < usize::MAX,
        ensures
            final(self).wf(),
            final(engine).wf(),
            exists|row: usize, begun: Result<BatchStep, EngineError>| #[trigger]
                trial::tried(
                    *old(engine),
                    *final(engine),
                    *lane,
                    old(self).current@,
                    None,
                    row,
                    begun,
                ) && match begun {
                    Ok(BatchStep::Run(plan)) => *final(self) == old(self).with_phase(
                        SimbaPhase::Baseline,
                    ) && r == Ok::<SimbaAction, SimbaError>(SimbaAction::Evaluate { plan }),
                    Ok(BatchStep::BudgetExhausted { needed }) => *final(self) == *old(self) && r
                        == Err::<SimbaAction, SimbaError>(SimbaError::BudgetTooSmall { needed }),
                    Err(e) => *final(self) == *old(self) && r == Err::<SimbaAction, SimbaError>(
                        SimbaError::Engine(e),
                    ),
                },
    {
        let (row, begun) = trial::try_candidate(engine, lane, self.current.clone(), None);
        let ghost seen = begun;
        proof {
            assert(trial::tried(
                *old(engine),
                *engine,
                *lane,
                self.current@,
                None,
                row,
                seen,
            ));
        }
        match begun {
            Ok(BatchStep::Run(plan)) => {
                self.phase = SimbaPhase::Baseline;
                Ok(SimbaAction::Evaluate { plan })
            },
            Ok(BatchStep::BudgetExhausted { needed }) => Err(
                SimbaError::BudgetTooSmall { needed },
            ),
            Err(e) => Err(SimbaError::Engine(e)),
        }
    }

    /// Takes the evaluation of the baseline.
    pub fn on_baseline_evaluated(&mut self, eval: &CandidateEval, mean: Mean) -> (r: SimbaAction)
        requires
            old(self).wf(),
            old(self).phase is Baseline,
            store::fits(eval.rollouts@, old(self).num_examples as nat),
            store::covers(eval.rollouts@, old(self).num_examples as nat),
        ensures
            final(self).wf(),
            r is Draw,
            *final(self) == (SimbaRun {
                store: final(self).store,
                baseline_score: mean,
                final_score: mean,
                phase: SimbaPhase::Ready,
                ..*old(self)
            }),
            final(self).store@ == store::stored_after(
                old(self).store@,
                eval.rollouts@,
                false,
                eval.rollouts@.len(),
            ),
    {
        proof {
            store::lemma_covered_store_is_complete(self.store@, eval.rollouts@);
        }
        store::write_rollouts(&mut self.store, eval, false);
        self.baseline_score = mean.clone();
        self.final_score = mean;
        self.phase = SimbaPhase::Ready;
        SimbaAction::Draw
    }

    /// The end of a run: what the accepted steps made of the candidate is installed, and
    /// nothing when no step was accepted.
    pub open spec fn finishes(before: SimbaRun, after: SimbaRun, r: SimbaAction) -> bool {
        &&& after == before.with_phase(SimbaPhase::Done)
        &&& r matches SimbaAction::Finish { winner } && match winner {
            Some(w) => w.wf() && w@ == before.current@ && before.current@ != Map::<
                Seq<char>,
                SlotView,
            >::empty(),
            None => before.current@ == Map::<Seq<char>, SlotView>::empty(),
        }
    }

    pub fn finish(&mut self) -> (r: SimbaAction)
        requires
            old(self).wf(),
            old(self).scored(),
        ensures
            final(self).wf(),
            SimbaRun::finishes(*old(self), *final(self), r),
    {
        let winner = if self.current.is_empty() {
            None
        } else {
            Some(self.current.clone())
        };
        self.phase = SimbaPhase::Done;
        SimbaAction::Finish { winner }
    }

    /// Begins a step on a minibatch: the average of its known scores is what a child has to
    /// beat.
    pub fn begin_step(&mut self, minibatch: Vec<usize>) -> (r: SimbaAction)
        requires
            old(self).wf(),
            old(self).phase is Ready,
            old(self).step < old(self).config.max_steps,
            old(self).is_minibatch(minibatch@),
        ensures
            final(self).wf(),
            *final(self) == old(self).with_phase(SimbaPhase::Averaging { minibatch }),
            r matches SimbaAction::Average { scores } && scores@ == store::scores_at(
                old(self).store@,
                minibatch@,
            ),
    {
        proof {
            assert(store::known(self.store@, minibatch@)) by {
                assert forall|i: int| 0 <= i < minibatch@.len() implies (#[trigger] minibatch@[i])
                    < self.store@.len() && self.store@[minibatch@[i] as int] is Some by {}
            }
        }
        let scores = store::chosen_scores(&self.store, &minibatch);
        self.phase = SimbaPhase::Averaging { minibatch };
        SimbaAction::Average { scores }
    }

    /// Draws a minibatch and begins a step on it; or ends the run when no step is due. A step needs
    /// an example.
    pub fn next_step(&mut self, engine: &Engine, rng: &mut StdRng) -> (r: SimbaAction)
        requires
            old(self).wf(),
            old(self).phase is Ready,
            old(self).num_examples > 0 || old(self).step >= old(self).config.max_steps
                || !engine.ledger.config.budget.admits(engine.ledger.spend, 1),
        ensures
            final(self).wf(),
            if !(old(self).step < old(self).config.max_steps
                && engine.ledger.config.budget.admits(engine.ledger.spend, 1)) {
                SimbaRun::finishes(*old(self), *final(self), r)
            } else {
                &&& final(self).phase is Averaging
                &&& *final(self) == old(self).with_phase(final(self).phase)
                &&& store::ascending(final(self).phase->Averaging_minibatch@)
                &&& old(self).is_minibatch(final(self).phase->Averaging_minibatch@)
                &&& final(self).phase->Averaging_minibatch@.no_duplicates()
                &&& final(self).phase->Averaging_minibatch@.len()
                    == crate::optimizer::gepa::GEPA::batch_size(
                    old(self).config.minibatch_size,
                    old(self).num_examples as nat,
                )
                &&& r matches SimbaAction::Average { scores } && scores@ == store::scores_at(
                    old(self).store@,
                    final(self).phase->Averaging_minibatch@,
                )
            },
    {
        if !(self.step < self.config.max_steps && engine.budget_allows(1)) {
            return self.finish();
        }
        let minibatch = draw_minibatch(rng, self.num_examples, self.config.minibatch_size);
        self.begin_step(minibatch)
    }

    /// A child is registered, and its evaluation on the minibatch begun.
    pub open spec fn begins_trial(
        before: SimbaRun,
        engine_before: Engine,
        after: SimbaRun,
        engine_after: Engine,
        lane: Lane,
        minibatch: Seq<usize>,
        content: Map<Seq<char>, SlotView>,
        move_kind: SimbaMove,
        threshold: Mean,
        r: Result<SimbaAction, SimbaError>,
    ) -> bool {
        exists|row: usize, begun: Result<BatchStep, EngineError>| #[trigger]
            trial::tried(
                engine_before,
                engine_after,
                lane,
                content,
                Some(minibatch),
                row,
                begun,
            ) && match begun {
                Ok(BatchStep::Run(plan)) => {
                    &&& after == before.with_phase(after.phase)
                    &&& after.phase matches SimbaPhase::Minibatch { trial } && trial.child@
                        == content && trial.move_kind == move_kind && trial.row == row
                        && trial.threshold == threshold
                    &&& r == Ok::<SimbaAction, SimbaError>(SimbaAction::Evaluate { plan })
                },
                Ok(BatchStep::BudgetExhausted { .. }) => r matches Ok(action)
                    && SimbaRun::finishes(before, after, action),
                Err(e) => after == before && r == Err::<SimbaAction, SimbaError>(
                    SimbaError::Engine(e),
                ),
            }
    }

    fn begin_trial(
        &mut self,
        engine: &mut Engine,
        lane: &Lane,
        minibatch: &Vec<usize>,
        child: Candidate,
        move_kind: SimbaMove,
        threshold: Mean,
    ) -> (r: Result<SimbaAction, SimbaError>)
        requires
            old(self).wf(),
            old(self).scored(),
            store::complete(old(self).store@),
            old(self).step < old(self).config.max_steps,
            child.wf(),
            rooted(old(self).leaves@, child@),
            old(engine).wf(),
            old(engine).payloads@.len() < usize::MAX,
        ensures
            final(self).wf(),
            final(engine).wf(),
            SimbaRun::begins_trial(
                *old(self),
                *old(engine),
                *final(self),
                *final(engine),
                *lane,
                minibatch@,
                child@,
                move_kind,
                threshold,
                r,
            ),
    {
        let (row, begun) = trial::try_candidate(engine, lane, child.clone(), Some(minibatch));
        let ghost seen = begun;
        proof {
            assert(trial::tried(
                *old(engine),
                *engine,
                *lane,
                child@,
                Some(minibatch@),
                row,
                seen,
            ));
        }
        match begun {
            Ok(BatchStep::Run(plan)) => {
                self.phase = SimbaPhase::Minibatch {
                    trial: SimbaTrial { child, move_kind, row, threshold },
                };
                Ok(SimbaAction::Evaluate { plan })
            },
            Ok(BatchStep::BudgetExhausted { .. }) => Ok(self.finish()),
            Err(e) => Err(SimbaError::Engine(e)),
        }
    }

    /// The instruction that a leaf has: that of the candidate, or else its own.
    pub open spec fn instruction_now(&self, leaf: int) -> Seq<char> {
        let name = self.leaves@[leaf].name@;
        match engine::slot_of(self.current@, name).instruction {
            Some(t) => t,
            None => self.leaves@[leaf].instruction@,
        }
    }

    /// The rule without a reflecting model: the feedback on the worst rollout.
    pub open spec fn fallback_rule(eval: Eval) -> Seq<char> {
        match eval.feedback {
            Some(f) => f@,
            None => "Avoid the failure mode of the lowest-scoring rollout (score "@
                + eval.score_text@ + ")."@,
        }
    }

    /// The content of a candidate whose leaf gained a rule.
    pub open spec fn with_rule(&self, leaf: int, rule: Seq<char>) -> Map<Seq<char>, SlotView> {
        let name = self.leaves@[leaf].name@;
        self.current@.insert(
            name,
            SlotView {
                instruction: Some(self.instruction_now(leaf) + "\n\n[SIMBA rule] "@ + rule),
                clear_instruction: false,
                demos: engine::slot_of(self.current@, name).demos,
            },
        )
    }

    proof fn lemma_rule_is_rooted(&self, leaf: int, rule: Seq<char>)
        requires
            rooted(self.leaves@, self.current@),
            0 <= leaf < self.leaves@.len(),
        ensures
            rooted(self.leaves@, self.with_rule(leaf, rule)),
    {
        let name = self.leaves@[leaf].name@;
        let base = self.instruction_now(leaf);
        let all = base + "\n\n[SIMBA rule] "@ + rule;
        let child = self.with_rule(leaf, rule);
        assert(grown_from(self.leaves@, name, base)) by {
            if engine::slot_of(self.current@, name).instruction is Some {
                assert(self.current@.dom().contains(name));
            } else {
                assert(base.subrange(0, base.len() as int) =~= base);
                assert(text::has_prefix(base, self.leaves@[leaf].instruction@));
            }
        }
        let k = choose|k: int|
            0 <= k < self.leaves@.len() && (#[trigger] self.leaves@[k]).name@ == name
                && text::has_prefix(base, self.leaves@[k].instruction@);
        let first = self.leaves@[k].instruction@;
        assert(all.subrange(0, first.len() as int) =~= base.subrange(0, first.len() as int));
        assert(text::has_prefix(all, first));
        assert(grown_from(self.leaves@, name, all));
        assert forall|n: Seq<char>| #[trigger]
            child.dom().contains(n) && child[n].instruction is Some implies grown_from(
            self.leaves@,
            n,
            child[n].instruction->0,
        ) by {
            if n != name {
                assert(self.current@.dom().contains(n));
            }
        }
    }

    fn current_instruction(&self, leaf: usize) -> (r: String)
        requires
            self.wf(),
            leaf < self.leaves@.len(),
        ensures
            r@ == self.instruction_now(leaf as int),
    {
        match self.current.instruction_of(self.leaves[leaf].name.as_str()) {
            Some(t) => t.to_owned(),
            None => self.leaves[leaf].instruction.clone(),
        }
    }

    fn rule_child(&self, leaf: usize, rule: &str) -> (r: Candidate)
        requires
            self.wf(),
            leaf < self.leaves@.len(),
        ensures
            r.wf(),
            r@ == self.with_rule(leaf as int, rule@),
            rooted(self.leaves@, r@),
    {
        proof {
            self.lemma_rule_is_rooted(leaf as int, rule@);
        }
        let mut instruction = self.current_instruction(leaf);
        instruction.append("\n\n[SIMBA rule] ");
        instruction.append(rule);
        let mut child = self.current.clone();
        child.set_instruction(self.leaves[leaf].name.as_str(), instruction.as_str());
        child
    }

    fn fallback(eval: &Eval) -> (r: String)
        ensures
            r@ == SimbaRun::fallback_rule(*eval),
    {
        match &eval.feedback {
            Some(f) => f.clone(),
            None => {
                let mut out =
                    "Avoid the failure mode of the lowest-scoring rollout (score ".to_owned();
                out.append(eval.score_text.as_str());
                out.append(").");
                out
            },
        }
    }

    /// What follows the average of a minibatch, with the first of its best and the first of
    /// its worst examples.
    pub open spec fn after_average(
        before: SimbaRun,
        engine_before: Engine,
        after: SimbaRun,
        engine_after: Engine,
        lane: Lane,
        threshold: Mean,
        best: Stored,
        worst: int,
        r: Result<SimbaAction, SimbaError>,
    ) -> bool {
        let minibatch = before.phase->Averaging_minibatch@;
        let low = before.store@[worst]->0;
        ||| best.trace is Some && best.eval.score.key >= before.config.min_demo_score
            && exists|harvested: Seq<(String, Vec<JsonMap>)>| #[trigger]
            is_harvest(
                harvested,
                best.eval.score,
                best.trace->0,
                before.config.min_demo_score,
            ) && gains(before.leaves@, before.current@, harvested, harvested.len())
                && SimbaRun::begins_trial(
                before,
                engine_before,
                after,
                engine_after,
                lane,
                minibatch,
                with_demos(
                    before.leaves@,
                    before.current@,
                    harvested,
                    before.config.max_demos as nat,
                    harvested.len(),
                ),
                SimbaMove::AppendDemo,
                threshold,
                r,
            )
        ||| (best.trace is None || best.eval.score.key < before.config.min_demo_score || exists|
            harvested: Seq<(String, Vec<JsonMap>)>,
        | #[trigger]
            is_harvest(
                harvested,
                best.eval.score,
                best.trace->0,
                before.config.min_demo_score,
            ) && !gains(before.leaves@, before.current@, harvested, harvested.len())) && exists|
            leaf: usize,
        | #[trigger]
            is_rule_target(before.leaves@, low.trace, leaf as int) && if before.config.reflects {
                &&& engine_after == engine_before
                &&& after == before.with_phase(after.phase)
                &&& after.phase matches SimbaPhase::Introspecting {
                    minibatch: m,
                    threshold: t,
                    leaf: l,
                    worst: w,
                } && m@ == minibatch && t == threshold && l == leaf && w == worst
                &&& r matches Ok(SimbaAction::Introspect { prompt }) && prompt.task_description@
                    == before.leaves@[leaf as int].schema_text() && prompt.current_instruction@
                    == before.instruction_now(leaf as int) && prompt.better_rollout@
                    == summary::rollout_summary(best.eval, best.trace) && prompt.worse_rollout@
                    == summary::rollout_summary(low.eval, low.trace)
            } else {
                SimbaRun::begins_trial(
                    before,
                    engine_before.charged(0, 0),
                    after,
                    engine_after,
                    lane,
                    minibatch,
                    before.with_rule(leaf as int, SimbaRun::fallback_rule(low.eval)),
                    SimbaMove::AppendRule,
                    threshold,
                    r,
                )
            }
    }

    /// Takes the average of the minibatch. A good enough rollout gives a demo; otherwise the
    /// worst one gives a rule.
    #[verifier::rlimit(50)]
    pub fn on_average(&mut self, engine: &mut Engine, lane: &Lane, threshold: Mean) -> (r: Result<
        SimbaAction,
        SimbaError,
    >)
        requires
            old(self).wf(),
            old(self).phase is Averaging,
            old(engine).wf(),
            old(engine).payloads@.len() < usize::MAX,
        ensures
            final(self).wf(),
            final(engine).wf(),
            exists|b: int, w: int|
                #![trigger store::is_first_best(store::scores_at(old(self).store@, old(self).phase->Averaging_minibatch@), b),
                    store::is_first_worst(store::scores_at(old(self).store@, old(self).phase->Averaging_minibatch@), w)]
                {
                    let minibatch = old(self).phase->Averaging_minibatch@;
                    let scores = store::scores_at(old(self).store@, minibatch);
                    &&& store::is_first_best(scores, b)
                    &&& store::is_first_worst(scores, w)
                    &&& SimbaRun::after_average(
                        *old(self),
                        *old(engine),
                        *final(self),
                        *final(engine),
                        *lane,
                        threshold,
                        old(self).store@[minibatch[b] as int]->0,
                        minibatch[w] as int,
                        r,
                    )
                },
    {
        let minibatch = match &self.phase {
            SimbaPhase::Averaging { minibatch } => rollouts::copy_indices(minibatch),
            _ => Vec::new(),
        };
        let ghost asked = self.phase->Averaging_minibatch@;
        proof {
            assert(minibatch@ == asked);
            assert(store::known(self.store@, minibatch@)) by {
                assert forall|i: int| 0 <= i < minibatch@.len() implies (#[trigger] minibatch@[i])
                    < self.store@.len() && self.store@[minibatch@[i] as int] is Some by {}
            }
        }
        let scores = store::chosen_scores(&self.store, &minibatch);
        let (b, w) = store::best_and_worst(&scores);
        let best = minibatch[b];
        let worst = minibatch[w];
        let high = match &self.store[best] {
            Some(s) => s.clone(),
            None => {
                return Ok(SimbaAction::Draw);
            },
        };
        let low = match &self.store[worst] {
            Some(s) => s.clone(),
            None => {
                return Ok(SimbaAction::Draw);
            },
        };
        let ghost before = *self;
        let ghost engine_before = *engine;
        let mut demo_child: Option<Candidate> = None;
        if high.eval.score.key >= self.config.min_demo_score {
            match &high.trace {
                Some(t) => {
                    demo_child = self.config.append_demo_child(
                        &self.leaves,
                        &self.current,
                        high.eval.score,
                        t,
                    );
                },
                None => {},
            }
        }
        match demo_child {
            Some(child) => {
                proof {
                    let harvested = choose|h: Seq<(String, Vec<JsonMap>)>| #[trigger]
                        is_harvest(
                            h,
                            high.eval.score,
                            high.trace->0,
                            self.config.min_demo_score,
                        ) && gains(self.leaves@, self.current@, h, h.len()) && child@ == with_demos(
                            self.leaves@,
                            self.current@,
                            h,
                            self.config.max_demos as nat,
                            h.len(),
                        );
                    lemma_demos_keep_instructions(
                        self.leaves@,
                        self.current@,
                        harvested,
                        self.config.max_demos as nat,
                        harvested.len(),
                    );
                }
                let result = self.begin_trial(
                    engine,
                    lane,
                    &minibatch,
                    child,
                    SimbaMove::AppendDemo,
                    threshold,
                );
                proof {
                    assert(SimbaRun::after_average(
                        before,
                        engine_before,
                        *self,
                        *engine,
                        *lane,
                        threshold,
                        high,
                        worst as int,
                        result,
                    ));
                }
                result
            },
            None => {
                let leaf = rule_target(&self.leaves, &low.trace);
                if self.config.reflects {
                    let prompt = IntrospectRollouts {
                        task_description: self.leaves[leaf].schema_for_reflection(),
                        current_instruction: self.current_instruction(leaf),
                        better_rollout: summary::summarize_rollout(&high.eval, &high.trace),
                        worse_rollout: summary::summarize_rollout(&low.eval, &low.trace),
                    };
                    self.phase = SimbaPhase::Introspecting { minibatch, threshold, leaf, worst };
                    let result = Ok(SimbaAction::Introspect { prompt });
                    proof {
                        assert(is_rule_target(before.leaves@, low.trace, leaf as int));
                        assert(SimbaRun::after_average(
                            before,
                            engine_before,
                            *self,
                            *engine,
                            *lane,
                            threshold,
                            high,
                            worst as int,
                            result,
                        ));
                    }
                    result
                } else {
                    let rule = SimbaRun::fallback(&low.eval);
                    engine.charge(0, 0);
                    let child = self.rule_child(leaf, rule.as_str());
                    let result = self.begin_trial(
                        engine,
                        lane,
                        &minibatch,
                        child,
                        SimbaMove::AppendRule,
                        threshold,
                    );
                    proof {
                        assert(is_rule_target(before.leaves@, low.trace, leaf as int));
                        assert(SimbaRun::after_average(
                            before,
                            engine_before,
                            *self,
                            *engine,
                            *lane,
                            threshold,
                            high,
                            worst as int,
                            result,
                        ));
                    }
                    result
                }
            },
        }
    }

    /// The rule that a reply stands for: what it says, or the fallback when the call failed or
    /// said nothing.
    pub open spec fn reflected_rule(&self, reply: Option<Seq<char>>) -> Seq<char> {
        let low = self.store@[self.phase->Introspecting_worst as int]->0;
        match reply {
            Some(t) => if text::trim(t).len() > 0 {
                text::trim(t)
            } else {
                SimbaRun::fallback_rule(low.eval)
            },
            None => SimbaRun::fallback_rule(low.eval),
        }
    }

    /// Takes the reply of the reflecting model, `None` when the call failed. Either way one
    /// model call is charged.
    pub fn on_introspected(&mut self, engine: &mut Engine, lane: &Lane, reply: Option<String>) -> (r:
        Result<SimbaAction, SimbaError>)
        requires
            old(self).wf(),
            old(self).phase is Introspecting,
            old(engine).wf(),
            old(engine).payloads@.len() < usize::MAX,
        ensures
            final(self).wf(),
            final(engine).wf(),
            SimbaRun::begins_trial(
                *old(self),
                old(engine).charged(0, 1),
                *final(self),
                *final(engine),
                *lane,
                old(self).phase->Introspecting_minibatch@,
                old(self).with_rule(
                    old(self).phase->Introspecting_leaf as int,
                    old(self).reflected_rule(text::opt_view(reply)),
                ),
                SimbaMove::AppendRule,
                old(self).phase->Introspecting_threshold,
                r,
            ),
    {
        match &self.phase {
            SimbaPhase::Introspecting { minibatch, threshold, leaf, worst } => {
                let batch = rollouts::copy_indices(minibatch);
                let bar = threshold.clone();
                let at = *leaf;
                let low = *worst;
                let improved = match &reply {
                    Some(t) => text::trim_str(t.as_str()),
                    None => String::new(),
                };
                proof {
                    assert(self.store@[low as int] is Some);
                }
                let rule = if !improved.as_str().is_empty() {
                    improved
                } else {
                    match &self.store[low] {
                        Some(s) => SimbaRun::fallback(&s.eval),
                        None => String::new(),
                    }
                };
                engine.charge(0, 1);
                let child = self.rule_child(at, rule.as_str());
                self.begin_trial(engine, lane, &batch, child, SimbaMove::AppendRule, bar)
            },
            _ => Ok(SimbaAction::Draw),
        }
    }

    /// Only a step was written down, and the next one is due.
    pub open spec fn stepped(before: SimbaRun, after: SimbaRun, accepted: bool) -> bool {
        &&& after.step == before.step + 1
        &&& after.phase is Ready
        &&& after.accepted == before.accepted + if accepted {
            1int
        } else {
            0int
        }
        &&& after.rejected == before.rejected + if accepted {
            0int
        } else {
            1int
        }
        &&& after.steps@.len() == before.steps@.len() + 1
        &&& after.steps@.drop_last() == before.steps@
        &&& after.config == before.config
        &&& after.leaves == before.leaves
        &&& after.num_examples == before.num_examples
        &&& after.baseline_score == before.baseline_score
    }

    /// What follows the evaluation of a child on the minibatch: a child that does not beat the
    /// average is rejected, and another one is evaluated on all examples.
    pub open spec fn after_minibatch(
        before: SimbaRun,
        after: SimbaRun,
        engine: Engine,
        lane: Lane,
        eval: CandidateEval,
        mean: Mean,
        r: Result<SimbaAction, SimbaError>,
    ) -> bool {
        let trial = before.phase->Minibatch_trial;
        if mean.key <= trial.threshold.key {
            &&& SimbaRun::stepped(before, after, false)
            &&& after.current == before.current
            &&& after.store == before.store
            &&& after.final_score == before.final_score
            &&& after.steps@.last() == (SimbaStep {
                step: before.step,
                move_kind: trial.move_kind,
                parent_minibatch_score: trial.threshold,
                child_minibatch_score: mean,
                accepted: false,
                full_score: None,
            })
            &&& r == Ok::<SimbaAction, SimbaError>(SimbaAction::Draw)
        } else {
            exists|begun: Result<BatchStep, EngineError>| #[trigger]
                engine.begins(lane, seq![trial.row], None, begun) && match begun {
                    Ok(BatchStep::Run(plan)) => {
                        &&& after == before.with_phase(
                            SimbaPhase::Full { trial, minibatch: eval, score: mean },
                        )
                        &&& r == Ok::<SimbaAction, SimbaError>(SimbaAction::Evaluate { plan })
                    },
                    Ok(BatchStep::BudgetExhausted { .. }) => r matches Ok(action)
                        && SimbaRun::finishes(before, after, action),
                    Err(e) => after == before.with_phase(SimbaPhase::Done) && r == Err::<
                        SimbaAction,
                        SimbaError,
                    >(SimbaError::Engine(e)),
                }
        }
    }

    /// Takes the evaluation of a child on the minibatch.
    pub fn on_minibatch_evaluated(
        &mut self,
        engine: &Engine,
        lane: &Lane,
        eval: CandidateEval,
        mean: Mean,
    ) -> (r: Result<SimbaAction, SimbaError>)
        requires
            old(self).wf(),
            old(self).phase is Minibatch,
            engine.wf(),
            store::fits(eval.rollouts@, old(self).num_examples as nat),
        ensures
            final(self).wf(),
            SimbaRun::after_minibatch(*old(self), *final(self), *engine, *lane, eval, mean, r),
    {
        let mut phase = SimbaPhase::Done;
        std::mem::swap(&mut phase, &mut self.phase);
        match phase {
            SimbaPhase::Minibatch { trial } => {
                let gate = engine.evaluate_gated(
                    lane,
                    trial.row,
                    eval,
                    mean.key,
                    trial.threshold.key,
                );
                match gate {
                    Ok(GateStep::Done(GateOutcome::Rejected { .. })) => {
                        let ghost steps_before = self.steps@;
                        self.steps.push(
                            SimbaStep {
                                step: self.step,
                                move_kind: trial.move_kind,
                                parent_minibatch_score: trial.threshold,
                                child_minibatch_score: mean,
                                accepted: false,
                                full_score: None,
                            },
                        );
                        proof {
                            assert(self.steps@.drop_last() =~= steps_before);
                        }
                        self.rejected = self.rejected + 1;
                        self.step = self.step + 1;
                        self.phase = SimbaPhase::Ready;
                        Ok(SimbaAction::Draw)
                    },
                    Ok(GateStep::RunFull { minibatch, plan }) => {
                        self.phase = SimbaPhase::Full { trial, minibatch, score: mean };
                        Ok(SimbaAction::Evaluate { plan })
                    },
                    Ok(GateStep::Done(_)) => {
                        let action = self.finish();
                        proof {
                            assert(SimbaRun::finishes(*old(self), *self, action));
                        }
                        Ok(action)
                    },
                    Err(e) => Err(SimbaError::Engine(e)),
                }
            },
            _ => Ok(SimbaAction::Draw),
        }
    }

    /// Takes the evaluation of a promoted child on all examples: it becomes the candidate.
    pub fn on_full_evaluated(&mut self, full: &CandidateEval, mean: Mean) -> (r: SimbaAction)
        requires
            old(self).wf(),
            old(self).phase is Full,
            store::fits(full.rollouts@, old(self).num_examples as nat),
        ensures
            final(self).wf(),
            r is Draw,
            SimbaRun::stepped(*old(self), *final(self), true),
            final(self).current == old(self).phase->Full_trial.child,
            final(self).final_score == mean,
            final(self).store@ == store::stored_after(
                store::stored_after(
                    old(self).store@,
                    full.rollouts@,
                    false,
                    full.rollouts@.len(),
                ),
                old(self).phase->Full_minibatch.rollouts@,
                true,
                old(self).phase->Full_minibatch.rollouts@.len(),
            ),
            final(self).steps@.last() == (SimbaStep {
                step: old(self).step,
                move_kind: old(self).phase->Full_trial.move_kind,
                parent_minibatch_score: old(self).phase->Full_trial.threshold,
                child_minibatch_score: old(self).phase->Full_score,
                accepted: true,
                full_score: Some(mean),
            }),
    {
        let mut phase = SimbaPhase::Done;
        std::mem::swap(&mut phase, &mut self.phase);
        match phase {
            SimbaPhase::Full { trial, minibatch, score } => {
                proof {
                    store::lemma_stored_after(
                        self.store@,
                        full.rollouts@,
                        false,
                        full.rollouts@.len(),
                    );
                    let mid = store::stored_after(
                        self.store@,
                        full.rollouts@,
                        false,
                        full.rollouts@.len(),
                    );
                    store::lemma_stored_after(
                        mid,
                        minibatch.rollouts@,
                        true,
                        minibatch.rollouts@.len(),
                    );
                }
                store::write_rollouts(&mut self.store, full, false);
                store::write_rollouts(&mut self.store, &minibatch, true);
                let ghost steps_before = self.steps@;
                self.final_score = mean.clone();
                self.steps.push(
                    SimbaStep {
                        step: self.step,
                        move_kind: trial.move_kind,
                        parent_minibatch_score: trial.threshold,
                        child_minibatch_score: score,
                        accepted: true,
                        full_score: Some(mean),
                    },
                );
                proof {
                    assert(self.steps@.drop_last() =~= steps_before);
                }
                self.accepted = self.accepted + 1;
                self.step = self.step + 1;
                self.current = trial.child;
                self.phase = SimbaPhase::Ready;
                SimbaAction::Draw
            },
            _ => SimbaAction::Draw,
        }
    }
}

/// A child that is rejected is not evaluated on all examples, and changes nothing but the record.
pub proof fn rejected_children_cost_no_full_evaluation(
    before: SimbaRun,
    after: SimbaRun,
    engine: Engine,
    lane: Lane,
    eval: CandidateEval,
    mean: Mean,
    r: Result<SimbaAction, SimbaError>,
)
    requires
        SimbaRun::after_minibatch(before, after, engine, lane, eval, mean, r),
        mean.key <= before.phase->Minibatch_trial.threshold.key,
    ensures
        !(r matches Ok(SimbaAction::Evaluate { .. })),
        after.current == before.current,
        after.store == before.store,
        after.final_score == before.final_score,
        after.accepted == before.accepted,
{
}

/// Draws a minibatch of different examples, in increasing order.
pub fn draw_minibatch(rng: &mut StdRng, num_examples: usize, minibatch_size: usize) -> (r: Vec<
    usize,
>)
    requires
        num_examples > 0,
    ensures
        store::ascending(r@),
        r@.no_duplicates(),
        r@.len() == crate::optimizer::gepa::GEPA::batch_size(minibatch_size, num_examples as nat),
        r@.len() > 0,
        forall|i: int| 0 <= i < r@.len() ==> (#[trigger] r@[i]) < num_examples,
{
    let all = rollouts::example_range(0, num_examples);
    let wanted: usize = if minibatch_size == 0 {
        1
    } else {
        minibatch_size
    };
    let size: usize = if wanted < num_examples {
        wanted
    } else {
        num_examples
    };
    let drawn = random::sample(rng, &all, size);
    let ghost values = drawn@;
    proof {
        assert(all@.no_duplicates());
        random::samples_of_distinct_values_are_distinct(values, all@, size);
    }
    let sorted = store::sort(drawn);
    proof {
        values.lemma_multiset_has_no_duplicates();
        sorted@.lemma_multiset_has_no_duplicates_conv();
        assert forall|i: int| 0 <= i < sorted@.len() implies (#[trigger] sorted@[i])
            < num_examples by {
            vstd::seq_lib::to_multiset_contains(sorted@, sorted@[i]);
            vstd::seq_lib::to_multiset_contains(values, sorted@[i]);
            assert(sorted@.contains(sorted@[i]));
            assert(values.contains(sorted@[i]));
            let k = values.index_of(sorted@[i]);
            assert(all@.contains(values[k]));
            let j = all@.index_of(values[k]);
        }
    }
    sorted
}

/// What is known of a child that is tried.
proof fn lemma_trial_begins(
    before: SimbaRun,
    engine_before: Engine,
    after: SimbaRun,
    engine_after: Engine,
    lane: Lane,
    minibatch: Seq<usize>,
    content: Map<Seq<char>, SlotView>,
    move_kind: SimbaMove,
    threshold: Mean,
    r: Result<SimbaAction, SimbaError>,
)
    requires
        SimbaRun::begins_trial(
            before,
            engine_before,
            after,
            engine_after,
            lane,
            minibatch,
            content,
            move_kind,
            threshold,
            r,
        ),
    ensures
        engine_after.ledger.spend == engine_before.ledger.spend,
        engine_after.payloads@.len() > engine_before.payloads@.len()
            ==> engine_after.payloads@.last()->candidate@ == content,
        r matches Ok(SimbaAction::Evaluate { plan }) ==> {
            &&& after.phase is Minibatch
            &&& after.phase->Minibatch_trial.child@ == content
            &&& after.phase->Minibatch_trial.move_kind == move_kind
            &&& after.phase->Minibatch_trial.threshold == threshold
            &&& plan.candidates@ == seq![after.phase->Minibatch_trial.row]
            &&& plan.indices@ == minibatch
            &&& exists|c: Candidate| #[trigger]
                c.wf() && c@ == content
                    && engine_after.ledger.hashes@[after.phase->Minibatch_trial.row as int]
                    == c.content_hash()
        },
{
    let (row, begun) = choose|row: usize, begun: Result<BatchStep, EngineError>| #[trigger]
        trial::tried(
            engine_before,
            engine_after,
            lane,
            content,
            Some(minibatch),
            row,
            begun,
        ) && match begun {
            Ok(BatchStep::Run(plan)) => {
                &&& after == before.with_phase(after.phase)
                &&& after.phase matches SimbaPhase::Minibatch { trial } && trial.child@ == content
                    && trial.move_kind == move_kind && trial.row == row && trial.threshold
                    == threshold
                &&& r == Ok::<SimbaAction, SimbaError>(SimbaAction::Evaluate { plan })
            },
            Ok(BatchStep::BudgetExhausted { .. }) => r matches Ok(action) && SimbaRun::finishes(
                before,
                after,
                action,
            ),
            Err(e) => after == before && r == Err::<SimbaAction, SimbaError>(SimbaError::Engine(e)),
        };
    trial::lemma_tried(
        engine_before,
        engine_after,
        lane,
        content,
        Some(minibatch),
        row,
        begun,
    );
}

proof fn lemma_rule_is_appended(run: SimbaRun, leaf: int, rule: Seq<char>)
    ensures
        ({
            let name = run.leaves@[leaf].name@;
            let child = run.with_rule(leaf, rule);
            let base = match engine::slot_of(run.current@, name).instruction {
                Some(t) => t,
                None => run.leaves@[leaf].instruction@,
            };
            &&& child[name].instruction is Some
            &&& text::has_prefix(child[name].instruction->0, base)
            &&& text::has_suffix(child[name].instruction->0, rule)
            &&& child[name].instruction->0.len() > base.len() + rule.len()
        }),
{
    reveal_strlit("\n\n[SIMBA rule] ");
    let base = run.instruction_now(leaf);
    text_laws::lemma_ends(base + "\n\n[SIMBA rule] "@, rule);
    text_laws::lemma_grouped(base, "\n\n[SIMBA rule] "@, rule);
    text_laws::lemma_ends(base, "\n\n[SIMBA rule] "@ + rule);
}

/// A rule is appended: the instruction of the child begins with the one that the predictor has in
/// the candidate, or with its own where the candidate sets none, and ends with the rule: what the
/// model replied, or else the feedback on the worst rollout. So it holds every rule before. The
/// demos of the predictor and all other predictors are as before. The call of the model is counted.
pub proof fn rules_of_a_model_are_appended(
    run: &mut SimbaRun,
    engine: &mut Engine,
    lane: &Lane,
    reply: Option<String>,
    r: Result<SimbaAction, SimbaError>,
    other: Seq<char>,
)
    requires
        old(run).wf(),
        old(run).phase is Introspecting,
        old(engine).wf(),
        call_ensures(SimbaRun::on_introspected, (run, engine, lane, reply), r),
    ensures
        ({
            let leaf = old(run).leaves@[old(run).phase->Introspecting_leaf as int];
            let name = leaf.name@;
            let has = old(run).current@.dom().contains(name);
            let base = if has && old(run).current@[name].instruction is Some {
                old(run).current@[name].instruction->0
            } else {
                leaf.instruction@
            };
            let worst = old(run).store@[old(run).phase->Introspecting_worst as int]->0.eval;
            &&& final(engine).payloads@.len() > old(engine).payloads@.len() ==> ({
                let set = final(engine).payloads@.last()->candidate@[name].instruction->0;
                &&& text::has_prefix(set, base)
                &&& reply matches Some(t) ==> text::trim(t@).len() > 0 ==> text::has_suffix(
                    set,
                    text::trim(t@),
                )
            })
            &&& old(engine).ledger.spend.lm_calls < usize::MAX
                ==> final(engine).ledger.spend.lm_calls == old(engine).ledger.spend.lm_calls + 1
            &&& r matches Ok(SimbaAction::Evaluate { plan }) ==> {
                let child = final(run).phase->Minibatch_trial.child@;
                let set = child[name].instruction->0;
                &&& final(run).phase is Minibatch
                &&& final(run).phase->Minibatch_trial.move_kind == SimbaMove::AppendRule
                &&& child[name].instruction is Some
                &&& text::has_prefix(set, base)
                &&& set.len() > base.len()
                &&& reply matches Some(t) ==> text::trim(t@).len() > 0 ==> text::has_suffix(
                    set,
                    text::trim(t@),
                )
                &&& (reply matches Some(t) ==> text::trim(t@).len() == 0) ==> (
                worst.feedback matches Some(f) ==> text::has_suffix(set, f@))
                &&& has ==> child[name].demos == old(run).current@[name].demos
                &&& !child[name].clear_instruction
                &&& other != name ==> child.dom().contains(other) == old(run).current@.dom().contains(other)
                &&& other != name && child.dom().contains(other) ==> child[other] == old(run).current@[other]
                &&& plan.indices@ == old(run).phase->Introspecting_minibatch@
            }
        }),
{
    let leaf = old(run).phase->Introspecting_leaf as int;
    let rule = old(run).reflected_rule(text::opt_view(reply));
    lemma_trial_begins(
        *old(run),
        old(engine).charged(0, 1),
        *final(run),
        *final(engine),
        *lane,
        old(run).phase->Introspecting_minibatch@,
        old(run).with_rule(leaf, rule),
        SimbaMove::AppendRule,
        old(run).phase->Introspecting_threshold,
        r,
    );
    lemma_rule_is_appended(*old(run), leaf, rule);
}

/// Without a reflecting model, and without a rollout that gives a demo, the feedback on a rollout of
/// the minibatch with the lowest score is appended to the instruction of a predictor, in the same
/// way.
pub proof fn feedback_is_appended_as_a_rule(
    run: &mut SimbaRun,
    engine: &mut Engine,
    lane: &Lane,
    threshold: Mean,
    plan: BatchPlan,
)
    requires
        old(run).wf(),
        old(run).phase is Averaging,
        old(engine).wf(),
        call_ensures(
            SimbaRun::on_average,
            (run, engine, lane, threshold),
            Ok::<SimbaAction, SimbaError>(SimbaAction::Evaluate { plan }),
        ),
        final(run).phase->Minibatch_trial.move_kind == SimbaMove::AppendRule,
    ensures
        ({
            let minibatch = old(run).phase->Averaging_minibatch@;
            let child = final(run).phase->Minibatch_trial.child@;
            exists|leaf: int, w: int|
                #![trigger old(run).leaves@[leaf], minibatch[w]]
                0 <= leaf < old(run).leaves@.len() && 0 <= w < minibatch.len() && {
                    let name = old(run).leaves@[leaf].name@;
                    let base = if old(run).current@.dom().contains(name) && old(run).current@[name].instruction is Some {
                        old(run).current@[name].instruction->0
                    } else {
                        old(run).leaves@[leaf].instruction@
                    };
                    let low = old(run).store@[minibatch[w] as int]->0.eval;
                    &&& forall|j: int|
                        0 <= j < minibatch.len() ==> low.score.key <= old(run).store@[(#[trigger] minibatch[j]) as int]->0.eval.score.key
                    &&& child[name].instruction is Some
                    &&& text::has_prefix(child[name].instruction->0, base)
                    &&& low.feedback matches Some(f) ==> text::has_suffix(
                        child[name].instruction->0,
                        f@,
                    )
                    &&& child == old(run).current@.insert(name, child[name])
                    &&& old(run).current@.dom().contains(name) ==> child[name].demos == old(run).current@[name].demos
                }
        }),
        final(run).phase->Minibatch_trial.threshold == threshold,
        plan.indices@ == old(run).phase->Averaging_minibatch@,
{
    let minibatch = old(run).phase->Averaging_minibatch@;
    let scores = store::scores_at(old(run).store@, minibatch);
    let r = Ok::<SimbaAction, SimbaError>(SimbaAction::Evaluate { plan });
    let (b, w) = choose|b: int, w: int|
        store::is_first_best(scores, b) && store::is_first_worst(scores, w)
            && SimbaRun::after_average(
            *old(run),
            *old(engine),
            *final(run),
            *final(engine),
            *lane,
            threshold,
            old(run).store@[minibatch[b] as int]->0,
            minibatch[w] as int,
            r,
        );
    let best = old(run).store@[minibatch[b] as int]->0;
    let low = old(run).store@[minibatch[w] as int]->0;
    lemma_only_rules(
        *old(run),
        *old(engine),
        *final(run),
        *final(engine),
        *lane,
        threshold,
        best,
        minibatch[w] as int,
        r,
    );
    let rule = SimbaRun::fallback_rule(low.eval);
    let leaf = choose|leaf: usize| #[trigger]
        is_rule_target(old(run).leaves@, low.trace, leaf as int) && SimbaRun::begins_trial(
            *old(run),
            old(engine).charged(0, 0),
            *final(run),
            *final(engine),
            *lane,
            minibatch,
            old(run).with_rule(leaf as int, rule),
            SimbaMove::AppendRule,
            threshold,
            r,
        );
    lemma_trial_begins(
        *old(run),
        old(engine).charged(0, 0),
        *final(run),
        *final(engine),
        *lane,
        minibatch,
        old(run).with_rule(leaf as int, rule),
        SimbaMove::AppendRule,
        threshold,
        r,
    );
    lemma_rule_is_appended(*old(run), leaf as int, rule);
    let child = final(run).phase->Minibatch_trial.child@;
    let name = old(run).leaves@[leaf as int].name@;
    assert(child =~= old(run).current@.insert(name, child[name]));
    assert forall|j: int| 0 <= j < minibatch.len() implies low.eval.score.key <= old(run).store@[(
    #[trigger] minibatch[j]) as int]->0.eval.score.key by {
        assert(scores[j] == old(run).store@[minibatch[j] as int]->0.eval.score);
        assert(scores[w] == low.eval.score);
    }
    assert(old(run).leaves@[leaf as int].name@ == name);
    assert(minibatch[w] == minibatch[w]);
}

proof fn lemma_only_rules(
    before: SimbaRun,
    engine_before: Engine,
    after: SimbaRun,
    engine_after: Engine,
    lane: Lane,
    threshold: Mean,
    best: Stored,
    worst: int,
    r: Result<SimbaAction, SimbaError>,
)
    requires
        SimbaRun::after_average(
            before,
            engine_before,
            after,
            engine_after,
            lane,
            threshold,
            best,
            worst,
            r,
        ),
        r matches Ok(SimbaAction::Evaluate { .. }),
        after.phase->Minibatch_trial.move_kind == SimbaMove::AppendRule,
    ensures
        exists|leaf: usize| #[trigger]
            is_rule_target(before.leaves@, before.store@[worst]->0.trace, leaf as int)
                && SimbaRun::begins_trial(
                before,
                engine_before.charged(0, 0),
                after,
                engine_after,
                lane,
                before.phase->Averaging_minibatch@,
                before.with_rule(
                    leaf as int,
                    SimbaRun::fallback_rule(before.store@[worst]->0.eval),
                ),
                SimbaMove::AppendRule,
                threshold,
                r,
            ),
{
    let minibatch = before.phase->Averaging_minibatch@;
    if exists|harvested: Seq<(String, Vec<JsonMap>)>| #[trigger]
        is_harvest(
            harvested,
            best.eval.score,
            best.trace->0,
            before.config.min_demo_score,
        ) && gains(before.leaves@, before.current@, harvested, harvested.len())
            && SimbaRun::begins_trial(
            before,
            engine_before,
            after,
            engine_after,
            lane,
            minibatch,
            with_demos(
                before.leaves@,
                before.current@,
                harvested,
                before.config.max_demos as nat,
                harvested.len(),
            ),
            SimbaMove::AppendDemo,
            threshold,
            r,
        ) {
        let harvested = choose|harvested: Seq<(String, Vec<JsonMap>)>| #[trigger]
            is_harvest(
                harvested,
                best.eval.score,
                best.trace->0,
                before.config.min_demo_score,
            ) && gains(before.leaves@, before.current@, harvested, harvested.len())
                && SimbaRun::begins_trial(
                before,
                engine_before,
                after,
                engine_after,
                lane,
                minibatch,
                with_demos(
                    before.leaves@,
                    before.current@,
                    harvested,
                    before.config.max_demos as nat,
                    harvested.len(),
                ),
                SimbaMove::AppendDemo,
                threshold,
                r,
            );
        lemma_trial_begins(
            before,
            engine_before,
            after,
            engine_after,
            lane,
            minibatch,
            with_demos(
                before.leaves@,
                before.current@,
                harvested,
                before.config.max_demos as nat,
                harvested.len(),
            ),
            SimbaMove::AppendDemo,
            threshold,
            r,
        );
    }
}

/// The reflecting model reads the instruction that the predictor has in the candidate.
pub proof fn introspection_reads_the_current_instruction(
    run: &mut SimbaRun,
    engine: &mut Engine,
    lane: &Lane,
    threshold: Mean,
    prompt: IntrospectRollouts,
)
    requires
        old(run).wf(),
        old(run).phase is Averaging,
        old(engine).wf(),
        call_ensures(
            SimbaRun::on_average,
            (run, engine, lane, threshold),
            Ok::<SimbaAction, SimbaError>(SimbaAction::Introspect { prompt }),
        ),
    ensures
        ({
            let leaf = final(run).phase->Introspecting_leaf as int;
            let name = old(run).leaves@[leaf].name@;
            &&& final(run).phase is Introspecting
            &&& 0 <= leaf < old(run).leaves@.len()
            &&& prompt.current_instruction@ == if old(run).current@.dom().contains(name) && old(run).current@[name].instruction is Some {
                old(run).current@[name].instruction->0
            } else {
                old(run).leaves@[leaf].instruction@
            }
            &&& final(run).current == old(run).current
            &&& final(run).phase->Introspecting_threshold == threshold
            &&& final(run).phase->Introspecting_minibatch@ == old(run).phase->Averaging_minibatch@
        }),
{
    let minibatch = old(run).phase->Averaging_minibatch@;
    let scores = store::scores_at(old(run).store@, minibatch);
    let r = Ok::<SimbaAction, SimbaError>(SimbaAction::Introspect { prompt });
    let (b, w) = choose|b: int, w: int|
        store::is_first_best(scores, b) && store::is_first_worst(scores, w)
            && SimbaRun::after_average(
            *old(run),
            *old(engine),
            *final(run),
            *final(engine),
            *lane,
            threshold,
            old(run).store@[minibatch[b] as int]->0,
            minibatch[w] as int,
            r,
        );
}

/// A child with demos sets the same instructions as the candidate that it was made of. No list of
/// demos that it changed is longer than allowed.
pub proof fn demos_do_not_touch_instructions(
    config: &SIMBA,
    leaves: &Vec<LeafInfo>,
    current: &Candidate,
    score: Score,
    trace: &Arc<Trace>,
    child: Candidate,
    name: Seq<char>,
)
    requires
        current.wf(),
        call_ensures(
            SIMBA::append_demo_child,
            (config, leaves, current, score, trace),
            Some(child),
        ),
    ensures
        child@.dom().contains(name) && current@.dom().contains(name) ==> child@[name].instruction
            == current@[name].instruction && child@[name].clear_instruction
            == current@[name].clear_instruction,
        child@.dom().contains(name) && !current@.dom().contains(name) ==> child@[name].instruction
            is None && child@[name].demos is Some,
        current@.dom().contains(name) ==> child@.dom().contains(name),
        child@.dom().contains(name) && !(current@.dom().contains(name) && child@[name].demos
            == current@[name].demos) ==> child@[name].demos is Some && child@[name].demos->0.len()
            <= if config.max_demos == 0 {
            1
        } else {
            config.max_demos as int
        },
{
    let h = choose|h: Seq<(String, Vec<JsonMap>)>| #[trigger]
        is_harvest(h, score, *trace, config.min_demo_score) && gains(
            leaves@,
            current@,
            h,
            h.len(),
        ) && child@ == with_demos(leaves@, current@, h, config.max_demos as nat, h.len());
    lemma_demos_keep_instructions(leaves@, current@, h, config.max_demos as nat, h.len());
    lemma_demos_are_capped(leaves@, current@, h, config.max_demos as nat, h.len(), name);
    assert(engine::slot_of(child@, name).instruction == engine::slot_of(
        current@,
        name,
    ).instruction);
}

proof fn lemma_demos_are_capped(
    leaves: Seq<LeafInfo>,
    current: Map<Seq<char>, SlotView>,
    harvested: Seq<(String, Vec<JsonMap>)>,
    max: nat,
    n: nat,
    name: Seq<char>,
)
    ensures
        ({
            let child = with_demos(leaves, current, harvested, max, n);
            &&& current.dom().contains(name) ==> child.dom().contains(name)
            &&& child.dom().contains(name) && !(current.dom().contains(name)
                && child[name].demos == current[name].demos) ==> child[name].demos is Some
                && child[name].demos->0.len() <= if max == 0 {
                1
            } else {
                max as int
            }
        }),
    decreases n,
{
    if n > 0 && n <= harvested.len() {
        lemma_demos_are_capped(leaves, current, harvested, max, (n - 1) as nat, name);
    }
}

/// New demos go behind those that a predictor has, and the oldest are dropped where there are too
/// many: as long as all fit, none that it had is lost.
pub proof fn appended_demos_keep_those_before(
    rows: Seq<Seq<(Seq<char>, JsonView)>>,
    new: Seq<Seq<(Seq<char>, JsonView)>>,
    max: nat,
    i: int,
)
    requires
        appended(rows, new, new.len()).len() <= max,
        0 <= i < rows.len(),
    ensures
        newest(appended(rows, new, new.len()), max).len() >= rows.len(),
        newest(appended(rows, new, new.len()), max)[i] == rows[i],
{
    lemma_appended_keeps(rows, new, new.len(), i);
}

proof fn lemma_appended_keeps(
    rows: Seq<Seq<(Seq<char>, JsonView)>>,
    new: Seq<Seq<(Seq<char>, JsonView)>>,
    n: nat,
    i: int,
)
    requires
        0 <= i < rows.len(),
    ensures
        appended(rows, new, n).len() >= rows.len(),
        appended(rows, new, n)[i] == rows[i],
    decreases n,
{
    if n > 0 && n <= new.len() {
        lemma_appended_keeps(rows, new, (n - 1) as nat, i);
    }
}

/// What is installed at the end is the candidate that the accepted steps made, and every instruction
/// in it begins with the one that a predictor of that name started from.
pub proof fn winners_keep_the_first_instructions(
    run: &mut SimbaRun,
    winner: Candidate,
    name: Seq<char>,
)
    requires
        old(run).wf(),
        old(run).scored(),
        call_ensures(SimbaRun::finish, (run,), SimbaAction::Finish { winner: Some(winner) }),
    ensures
        winner@ == old(run).current@,
        old(run).accepted > 0,
        winner@.dom().contains(name) && winner@[name].instruction is Some ==> exists|k: int|
            0 <= k < old(run).leaves@.len() && (#[trigger] old(run).leaves@[k]).name@ == name
                && text::has_prefix(
                winner@[name].instruction->0,
                old(run).leaves@[k].instruction@,
            ),
{
    if winner@.dom().contains(name) && winner@[name].instruction is Some {
        assert(grown_from(old(run).leaves@, name, winner@[name].instruction->0));
    }
}

/// A child whose mean on the minibatch is above that of the candidate is evaluated on all examples,
/// and then takes its place; a child whose mean is not is dropped.
pub proof fn better_children_take_the_place_of_the_candidate(
    run: &mut SimbaRun,
    engine: &Engine,
    lane: &Lane,
    eval: CandidateEval,
    mean: Mean,
    r: Result<SimbaAction, SimbaError>,
    later: &mut SimbaRun,
    full: &CandidateEval,
    full_mean: Mean,
    end: SimbaAction,
)
    requires
        old(run).wf(),
        old(run).phase is Minibatch,
        engine.wf(),
        call_ensures(SimbaRun::on_minibatch_evaluated, (run, engine, lane, eval, mean), r),
        *old(later) == *final(run),
        old(later).phase is Full,
        call_ensures(SimbaRun::on_full_evaluated, (later, full, full_mean), end),
    ensures
        mean.key > old(run).phase->Minibatch_trial.threshold.key,
        final(later).current == old(run).phase->Minibatch_trial.child,
        final(later).accepted == old(run).accepted + 1,
        final(later).final_score == full_mean,
        r matches Ok(SimbaAction::Evaluate { .. }),
{
    let trial = old(run).phase->Minibatch_trial;
    if mean.key > trial.threshold.key {
        let begun = choose|begun: Result<BatchStep, EngineError>| #[trigger]
            engine.begins(*lane, seq![trial.row], None, begun) && match begun {
                Ok(BatchStep::Run(plan)) => {
                    &&& *final(run) == old(run).with_phase(
                        SimbaPhase::Full { trial, minibatch: eval, score: mean },
                    )
                    &&& r == Ok::<SimbaAction, SimbaError>(SimbaAction::Evaluate { plan })
                },
                Ok(BatchStep::BudgetExhausted { .. }) => r matches Ok(action) && SimbaRun::finishes(
                    *old(run),
                    *final(run),
                    action,
                ),
                Err(e) => *final(run) == old(run).with_phase(SimbaPhase::Done) && r == Err::<
                    SimbaAction,
                    SimbaError,
                >(SimbaError::Engine(e)),
            };
    }
}

proof fn lemma_calls_of_one(spans: Seq<Span>, called: Seq<char>, other: Seq<char>, n: nat)
    requires
        n <= spans.len(),
        forall|i: int| 0 <= i < spans.len() ==> (#[trigger] spans[i]).component@ == called,
    ensures
        calls_of(spans, called, n) == n,
        other != called ==> calls_of(spans, other, n) == 0,
    decreases n,
{
    if n > 0 {
        lemma_calls_of_one(spans, called, other, (n - 1) as nat);
        assert(spans[n - 1].component@ == called);
    }
}

/// The rule is written for the predictor that the worst rollout called most, and for the first of
/// the predictors where there is no trace of it.
pub proof fn rules_go_to_the_predictor_called_most(
    leaves: &Vec<LeafInfo>,
    worst: &Option<Arc<Trace>>,
    r: usize,
    j: int,
)
    requires
        leaves@.len() > 0,
        call_ensures(rule_target, (leaves, worst), r),
        0 <= j < leaves@.len(),
    ensures
        r < leaves@.len(),
        worst is None ==> r == 0,
        worst is Some && (forall|i: int|
            0 <= i < worst->0.spans@.len() ==> (#[trigger] worst->0.spans@[i]).component@
                == leaves@[j].name@) && worst->0.spans@.len() > 0 ==> leaves@[r as int].name@
            == leaves@[j].name@,
{
    if worst is Some && (forall|i: int|
        0 <= i < worst->0.spans@.len() ==> (#[trigger] worst->0.spans@[i]).component@
            == leaves@[j].name@) && worst->0.spans@.len() > 0 {
        let spans = worst->0.spans@;
        lemma_calls_of_one(spans, leaves@[j].name@, leaves@[r as int].name@, spans.len());
        assert(leaf_calls(leaves@[j], spans) <= leaf_calls(leaves@[r as int], spans));
    }
}

/// A run that its budget cut short says how many rollouts it needed, and one that the engine
/// stopped says what the engine said.
pub proof fn failures_say_what_was_needed(
    e: &SimbaError,
    r: String,
    inner: &EngineError,
    said: String,
)
    requires
        call_ensures(SimbaError::message, (e,), r),
        call_ensures(EngineError::message, (inner,), said),
    ensures
        *e matches SimbaError::BudgetTooSmall { needed } ==> text::has_text(
            r@,
            text::decimal(needed as nat),
        ),
        *e == SimbaError::Engine(*inner) ==> r@ == said@,
{
    match *e {
        SimbaError::BudgetTooSmall { needed } => {
            text_laws::lemma_inside(
                "budget too small for the baseline pass ("@,
                text::decimal(needed as nat),
                " rollouts needed)"@,
            );
        },
        _ => {},
    }
}

/// The limits of a search are those of its engine, and it evaluates with as many at a time as it
/// says, with one where it says none.
pub proof fn limits_are_those_of_the_search(g: &SIMBA, r: EngineConfig)
    requires
        call_ensures(SIMBA::engine_config, (g,), r),
    ensures
        r.budget.max_metric_calls == g.max_metric_calls,
        r.budget.max_lm_calls == g.max_lm_calls,
        r.budget.max_tokens is None,
        g.eval_concurrency > 0 ==> r.concurrency == g.eval_concurrency,
        g.eval_concurrency == 0 ==> r.concurrency == 1,
{
}

/// A minibatch has as many examples as it should, at least one and no more than there are, in order
/// and each at most once.
pub proof fn minibatches_have_their_size(
    rng: &mut StdRng,
    num_examples: usize,
    minibatch_size: usize,
    r: Vec<usize>,
    i: int,
    j: int,
)
    requires
        num_examples > 0,
        call_ensures(draw_minibatch, (rng, num_examples, minibatch_size), r),
    ensures
        0 < minibatch_size <= num_examples ==> r@.len() == minibatch_size,
        minibatch_size > num_examples ==> r@.len() == num_examples,
        minibatch_size == 0 ==> r@.len() == 1,
        0 <= i < r@.len() ==> r@[i] < num_examples,
        0 <= i < j < r@.len() ==> r@[i] < r@[j],
{
}

/// A child whose mean on the minibatch is not above that of the candidate is dropped: the candidate
/// stays, nothing more is run for the child, and its step is written down with both means.
pub proof fn worse_children_are_dropped(
    run: &mut SimbaRun,
    engine: &Engine,
    lane: &Lane,
    eval: CandidateEval,
    mean: Mean,
    r: Result<SimbaAction, SimbaError>,
)
    requires
        old(run).wf(),
        old(run).phase is Minibatch,
        engine.wf(),
        mean.key <= old(run).phase->Minibatch_trial.threshold.key,
        call_ensures(SimbaRun::on_minibatch_evaluated, (run, engine, lane, eval, mean), r),
    ensures
        r matches Ok(SimbaAction::Draw),
        final(run).current == old(run).current,
        final(run).final_score == old(run).final_score,
        final(run).accepted == old(run).accepted,
        final(run).rejected == old(run).rejected + 1,
        final(run).step == old(run).step + 1,
        final(run).steps@.len() == old(run).steps@.len() + 1,
        !final(run).steps@.last().accepted,
        final(run).steps@.last().move_kind == old(run).phase->Minibatch_trial.move_kind,
        final(run).steps@.last().child_minibatch_score == mean,
        final(run).steps@.last().parent_minibatch_score
            == old(run).phase->Minibatch_trial.threshold,
        final(run).steps@.last().full_score is None,
{
}

/// A slot whose demos were changed has those that the predictor had and the harvested ones behind
/// them.
proof fn lemma_changed_demos(
    leaves: Seq<LeafInfo>,
    current: Map<Seq<char>, SlotView>,
    harvested: Seq<(String, Vec<JsonMap>)>,
    max: nat,
    n: nat,
    name: Seq<char>,
) -> (i: int)
    requires
        n <= harvested.len(),
        with_demos(leaves, current, harvested, max, n).dom().contains(name),
        !(current.dom().contains(name) && with_demos(
            leaves,
            current,
            harvested,
            max,
            n,
        )[name].demos == current[name].demos),
    ensures
        0 <= i < n,
        harvested[i].0@ == name,
        ({
            let rows = current_demos(leaves, current, name);
            let new = json::rows_view(harvested[i].1@);
            let all = appended(rows, new, new.len());
            &&& all.len() > rows.len()
            &&& with_demos(leaves, current, harvested, max, n)[name].demos == Some(
                newest(all, max),
            )
        }),
    decreases n,
{
    if n == 0 {
        0
    } else {
        let rows = current_demos(leaves, current, harvested[n - 1].0@);
        let new = json::rows_view(harvested[n - 1].1@);
        if harvested[n - 1].0@ == name && appended(rows, new, new.len()).len() > rows.len() {
            n - 1
        } else {
            lemma_changed_demos(leaves, current, harvested, max, (n - 1) as nat, name)
        }
    }
}

proof fn lemma_own_demos(leaves: Seq<LeafInfo>, name: Seq<char>, from: int, k: int)
    requires
        0 <= from <= k < leaves.len(),
        leaves[k].name@ == name,
        forall|j: int| 0 <= j < k ==> (#[trigger] leaves[j]).name@ != name,
    ensures
        target::leaf_index(leaves, name, from) == k,
    decreases k - from,
{
    if from < k {
        assert(leaves[from].name@ != name);
        lemma_own_demos(leaves, name, from + 1, k);
    }
}

/// A child with demos shows a good call of the rollout as the last demo of each predictor that it
/// changes, behind the demos that the predictor had: those of the candidate, or else its own. Where
/// there are too many, the oldest are left out.
pub proof fn new_demos_go_behind_those_before(
    config: &SIMBA,
    leaves: &Vec<LeafInfo>,
    current: &Candidate,
    score: Score,
    trace: &Arc<Trace>,
    child: Candidate,
    name: Seq<char>,
    rows: Seq<Seq<(Seq<char>, JsonView)>>,
    k: int,
    j: int,
)
    requires
        current.wf(),
        call_ensures(
            SIMBA::append_demo_child,
            (config, leaves, current, score, trace),
            Some(child),
        ),
        child@.dom().contains(name),
        !(current@.dom().contains(name) && child@[name].demos == current@[name].demos),
        current@.dom().contains(name) && current@[name].demos == Some(rows) || !(
        current@.dom().contains(name) && current@[name].demos is Some) && 0 <= k < leaves@.len()
            && leaves@[k].name@ == name && (forall|x: int|
            0 <= x < k ==> (#[trigger] leaves@[x]).name@ != name) && rows == json::rows_view(
            leaves@[k].demos@,
        ),
        forall|b: int|
            0 <= b < trace.spans@.len() && trace.spans@[b].input is Some
                && trace.spans@[b].output is Some ==> json::distinct_names(
                json::members_view((#[trigger] trace.spans@[b]).input->0@),
            ) && json::distinct_names(json::members_view(trace.spans@[b].output->0@)),
    ensures
        child@[name].demos is Some,
        ({
            let demos = child@[name].demos->0;
            &&& demos.len() > 0
            &&& demos.len() <= rows.len() + 1
            &&& rows.len() < config.max_demos ==> demos.len() == rows.len() + 1
            &&& 0 <= j < demos.len() - 1 ==> demos[demos.len() - 2 - j] == rows[rows.len() - 1 - j]
            &&& exists|b: int|
                0 <= b < trace.spans@.len() && (#[trigger] trace.spans@[b]).component@ == name
                    && harvest::good_call(score, trace.spans@[b], config.min_demo_score)
                    && harvest::shows_call(demos.last(), trace.spans@[b])
        }),
{
    let h = choose|h: Seq<(String, Vec<JsonMap>)>| #[trigger]
        is_harvest(h, score, *trace, config.min_demo_score) && gains(
            leaves@,
            current@,
            h,
            h.len(),
        ) && child@ == with_demos(leaves@, current@, h, config.max_demos as nat, h.len());
    let max = config.max_demos as nat;
    let i = lemma_changed_demos(leaves@, current@, h, max, h.len(), name);
    if !(current@.dom().contains(name) && current@[name].demos is Some) {
        lemma_own_demos(leaves@, name, 0, k);
    }
    assert(current_demos(leaves@, current@, name) == rows);
    let calls = harvest::demos_of_rollouts(seq![(score, *trace)], config.min_demo_score, 1);
    let cands = choose|cands: Seq<DemoCandidate>| #[trigger]
        harvest::all_made_from(cands, calls) && names::sorted_names(h) && (forall|n: Seq<char>|
         #[trigger]
            names::map_of(h).dom().contains(n) <==> harvest::kept_rows(cands, n, 1).len() > 0) && (
        forall|n: Seq<char>| #[trigger]
            names::map_of(h).dom().contains(n) ==> json::rows_view(names::map_of(h)[n]@)
                == harvest::kept_rows(cands, n, 1));
    names::lemma_map_at(h, i);
    let new = json::rows_view(h[i].1@);
    assert(new == harvest::kept_rows(cands, name, 1));
    harvest::kept_demos_are_capped_and_distinct(cands, name, 1);
    assert(new.len() == 1);
    let all = appended(rows, new, new.len());
    assert(appended(rows, new, 0) == rows);
    assert(all == rows.push(new[0]));
    let at = harvest::kept(cands, name, 1)[0];
    let from = harvest::lemma_demo_is_of(
        seq![(score, *trace)],
        config.min_demo_score,
        1,
        at,
    );
    let span = trace.spans@[from.1];
    assert(seq![(score, *trace)][from.0] == (score, *trace));
    assert(harvest::made_from(cands[at], score, span));
    harvest::lemma_row_shows_call(span);
    assert(new[0] == json::members_view(cands[at].row@));
}

proof fn lemma_gains(
    leaves: Seq<LeafInfo>,
    current: Map<Seq<char>, SlotView>,
    harvested: Seq<(String, Vec<JsonMap>)>,
    n: nat,
    i: int,
)
    requires
        0 <= i < n <= harvested.len(),
        ({
            let rows = current_demos(leaves, current, harvested[i].0@);
            let new = json::rows_view(harvested[i].1@);
            appended(rows, new, new.len()).len() > rows.len()
        }),
    ensures
        gains(leaves, current, harvested, n),
    decreases n,
{
    if i < n - 1 {
        lemma_gains(leaves, current, harvested, (n - 1) as nat, i);
    }
}

/// A predictor of a good call that has no demos yet gets one: there is a child.
pub proof fn first_demos_make_a_child(
    config: &SIMBA,
    leaves: &Vec<LeafInfo>,
    current: &Candidate,
    score: Score,
    trace: &Arc<Trace>,
    r: Option<Candidate>,
    b: int,
    k: int,
)
    requires
        current.wf(),
        call_ensures(SIMBA::append_demo_child, (config, leaves, current, score, trace), r),
        0 <= b < trace.spans@.len(),
        harvest::good_call(score, trace.spans@[b], config.min_demo_score),
        !current@.dom().contains(trace.spans@[b].component@),
        0 <= k < leaves@.len(),
        leaves@[k].name@ == trace.spans@[b].component@,
        forall|x: int|
            0 <= x < k ==> (#[trigger] leaves@[x]).name@ != trace.spans@[b].component@,
        leaves@[k].demos@.len() == 0,
    ensures
        r is Some,
{
    let name = trace.spans@[b].component@;
    let h = choose|h: Seq<(String, Vec<JsonMap>)>| #[trigger]
        is_harvest(h, score, *trace, config.min_demo_score) && match r {
            Some(child) => gains(leaves@, current@, h, h.len()) && child.wf() && child@
                == with_demos(leaves@, current@, h, config.max_demos as nat, h.len()),
            None => !gains(leaves@, current@, h, h.len()),
        };
    let traces = seq![(score, *trace)];
    let calls = harvest::demos_of_rollouts(traces, config.min_demo_score, 1);
    let cands = choose|cands: Seq<DemoCandidate>| #[trigger]
        harvest::all_made_from(cands, calls) && names::sorted_names(h) && (forall|n: Seq<char>|
         #[trigger]
            names::map_of(h).dom().contains(n) <==> harvest::kept_rows(cands, n, 1).len() > 0) && (
        forall|n: Seq<char>| #[trigger]
            names::map_of(h).dom().contains(n) ==> json::rows_view(names::map_of(h)[n]@)
                == harvest::kept_rows(cands, n, 1));
    assert(traces[0] == (score, *trace));
    let at = harvest::lemma_demo_has(traces, config.min_demo_score, 1, 0, b);
    assert(harvest::made_from(cands[at], score, trace.spans@[b]));
    harvest::lemma_some_are_kept(cands, 1, at);
    assert(names::map_of(h).dom().contains(name));
    assert(names::named(h, name));
    let i = choose|i: int| names::is_at(h, name, i);
    names::lemma_map_at(h, i);
    let new = json::rows_view(h[i].1@);
    harvest::kept_demos_are_capped_and_distinct(cands, name, 1);
    assert(new.len() == 1);
    lemma_own_demos(leaves@, name, 0, k);
    let rows = current_demos(leaves@, current@, name);
    assert(rows.len() == 0);
    assert(appended(rows, new, 0) == rows);
    assert(appended(rows, new, 1) == rows.push(new[0]));
    lemma_gains(leaves@, current@, h, h.len(), i);
}

/// A reflecting model compares a rollout of the minibatch that none does better than with one that
/// none does worse than.
pub proof fn introspection_compares_the_best_with_the_worst(
    run: &mut SimbaRun,
    engine: &mut Engine,
    lane: &Lane,
    threshold: Mean,
    prompt: IntrospectRollouts,
)
    requires
        old(run).wf(),
        old(run).phase is Averaging,
        old(engine).wf(),
        call_ensures(
            SimbaRun::on_average,
            (run, engine, lane, threshold),
            Ok::<SimbaAction, SimbaError>(SimbaAction::Introspect { prompt }),
        ),
    ensures
        ({
            let minibatch = old(run).phase->Averaging_minibatch@;
            exists|b: int, w: int|
                #![trigger minibatch[b], minibatch[w]]
                0 <= b < minibatch.len() && 0 <= w < minibatch.len() && {
                    let best = old(run).store@[minibatch[b] as int]->0;
                    let low = old(run).store@[minibatch[w] as int]->0;
                    &&& forall|j: int|
                        0 <= j < minibatch.len() ==> low.eval.score.key <= old(run).store@[(#[trigger] minibatch[j]) as int]->0.eval.score.key
                            <= best.eval.score.key
                    &&& prompt.better_rollout@ == summary::rollout_summary(best.eval, best.trace)
                    &&& prompt.worse_rollout@ == summary::rollout_summary(low.eval, low.trace)
                    &&& final(run).phase->Introspecting_worst == minibatch[w]
                }
        }),
{
    let r = Ok::<SimbaAction, SimbaError>(SimbaAction::Introspect { prompt });
    let minibatch = old(run).phase->Averaging_minibatch@;
    let scores = store::scores_at(old(run).store@, minibatch);
    let (b, w) = choose|b: int, w: int|
        store::is_first_best(scores, b) && store::is_first_worst(scores, w)
            && SimbaRun::after_average(
            *old(run),
            *old(engine),
            *final(run),
            *final(engine),
            *lane,
            threshold,
            old(run).store@[minibatch[b] as int]->0,
            minibatch[w] as int,
            r,
        );
    assert(scores.len() == minibatch.len());
    assert(scores[b] == old(run).store@[minibatch[b] as int]->0.eval.score);
    assert(scores[w] == old(run).store@[minibatch[w] as int]->0.eval.score);
    let best = old(run).store@[minibatch[b] as int]->0;
    let low = old(run).store@[minibatch[w] as int]->0;
    assert forall|j: int| 0 <= j < minibatch.len() implies low.eval.score.key <= old(run).store@[(#[trigger] minibatch[j]) as int]->0.eval.score.key <= best.eval.score.key by {
        assert(scores[j] == old(run).store@[minibatch[j] as int]->0.eval.score);
    }
    assert(minibatch[b] == minibatch[b] && minibatch[w] == minibatch[w]);
}

/// Demos are taken from a rollout of the minibatch that none does better than, and only from one
/// that is good enough.
pub proof fn demos_are_taken_from_the_best_rollout(
    run: &mut SimbaRun,
    engine: &mut Engine,
    lane: &Lane,
    threshold: Mean,
    plan: BatchPlan,
)
    requires
        old(run).wf(),
        old(run).phase is Averaging,
        old(engine).wf(),
        call_ensures(
            SimbaRun::on_average,
            (run, engine, lane, threshold),
            Ok::<SimbaAction, SimbaError>(SimbaAction::Evaluate { plan }),
        ),
        final(run).phase->Minibatch_trial.move_kind == SimbaMove::AppendDemo,
    ensures
        plan.indices@ == old(run).phase->Averaging_minibatch@,
        final(run).phase->Minibatch_trial.threshold == threshold,
        ({
            let minibatch = old(run).phase->Averaging_minibatch@;
            exists|b: int|
                0 <= b < minibatch.len() && {
                    let best = old(run).store@[(#[trigger] minibatch[b]) as int]->0;
                    &&& forall|j: int|
                        0 <= j < minibatch.len() ==> old(run).store@[(#[trigger] minibatch[j]) as int]->0.eval.score.key
                            <= best.eval.score.key
                    &&& best.eval.score.key >= old(run).config.min_demo_score
                    &&& best.trace is Some
                    &&& exists|harvested: Seq<(String, Vec<JsonMap>)>| #[trigger]
                        is_harvest(
                            harvested,
                            best.eval.score,
                            best.trace->0,
                            old(run).config.min_demo_score,
                        ) && final(run).phase->Minibatch_trial.child@ == with_demos(
                            old(run).leaves@,
                            old(run).current@,
                            harvested,
                            old(run).config.max_demos as nat,
                            harvested.len(),
                        )
                }
        }),
{
    let r = Ok::<SimbaAction, SimbaError>(SimbaAction::Evaluate { plan });
    let minibatch = old(run).phase->Averaging_minibatch@;
    let scores = store::scores_at(old(run).store@, minibatch);
    let (b, w) = choose|b: int, w: int|
        store::is_first_best(scores, b) && store::is_first_worst(scores, w)
            && SimbaRun::after_average(
            *old(run),
            *old(engine),
            *final(run),
            *final(engine),
            *lane,
            threshold,
            old(run).store@[minibatch[b] as int]->0,
            minibatch[w] as int,
            r,
        );
    assert(scores.len() == minibatch.len());
    assert(scores[b] == old(run).store@[minibatch[b] as int]->0.eval.score);
    assert(scores[w] == old(run).store@[minibatch[w] as int]->0.eval.score);
    let best = old(run).store@[minibatch[b] as int]->0;
    lemma_only_demos(
        *old(run),
        *old(engine),
        *final(run),
        *final(engine),
        *lane,
        threshold,
        best,
        minibatch[w] as int,
        r,
    );
    let harvested = choose|harvested: Seq<(String, Vec<JsonMap>)>| #[trigger]
        is_harvest(
            harvested,
            best.eval.score,
            best.trace->0,
            old(run).config.min_demo_score,
        ) && SimbaRun::begins_trial(
            *old(run),
            *old(engine),
            *final(run),
            *final(engine),
            *lane,
            minibatch,
            with_demos(
                old(run).leaves@,
                old(run).current@,
                harvested,
                old(run).config.max_demos as nat,
                harvested.len(),
            ),
            SimbaMove::AppendDemo,
            threshold,
            r,
        );
    lemma_trial_begins(
        *old(run),
        *old(engine),
        *final(run),
        *final(engine),
        *lane,
        minibatch,
        with_demos(
            old(run).leaves@,
            old(run).current@,
            harvested,
            old(run).config.max_demos as nat,
            harvested.len(),
        ),
        SimbaMove::AppendDemo,
        threshold,
        r,
    );
    assert forall|j: int| 0 <= j < minibatch.len() implies old(run).store@[(#[trigger] minibatch[j]) as int]->0.eval.score.key <= best.eval.score.key by {
        assert(scores[j] == old(run).store@[minibatch[j] as int]->0.eval.score);
    }
    assert(minibatch[b] == minibatch[b]);
}

proof fn lemma_only_demos(
    before: SimbaRun,
    engine_before: Engine,
    after: SimbaRun,
    engine_after: Engine,
    lane: Lane,
    threshold: Mean,
    best: Stored,
    worst: int,
    r: Result<SimbaAction, SimbaError>,
)
    requires
        SimbaRun::after_average(
            before,
            engine_before,
            after,
            engine_after,
            lane,
            threshold,
            best,
            worst,
            r,
        ),
        r matches Ok(SimbaAction::Evaluate { .. }),
        after.phase->Minibatch_trial.move_kind == SimbaMove::AppendDemo,
    ensures
        best.trace is Some,
        best.eval.score.key >= before.config.min_demo_score,
        exists|harvested: Seq<(String, Vec<JsonMap>)>| #[trigger]
            is_harvest(
                harvested,
                best.eval.score,
                best.trace->0,
                before.config.min_demo_score,
            ) && SimbaRun::begins_trial(
                before,
                engine_before,
                after,
                engine_after,
                lane,
                before.phase->Averaging_minibatch@,
                with_demos(
                    before.leaves@,
                    before.current@,
                    harvested,
                    before.config.max_demos as nat,
                    harvested.len(),
                ),
                SimbaMove::AppendDemo,
                threshold,
                r,
            ),
{
    let minibatch = before.phase->Averaging_minibatch@;
    let low = before.store@[worst]->0;
    if exists|leaf: usize| #[trigger]
        is_rule_target(before.leaves@, low.trace, leaf as int) && SimbaRun::begins_trial(
            before,
            engine_before.charged(0, 0),
            after,
            engine_after,
            lane,
            minibatch,
            before.with_rule(leaf as int, SimbaRun::fallback_rule(low.eval)),
            SimbaMove::AppendRule,
            threshold,
            r,
        ) {
        let leaf = choose|leaf: usize| #[trigger]
            is_rule_target(before.leaves@, low.trace, leaf as int) && SimbaRun::begins_trial(
                before,
                engine_before.charged(0, 0),
                after,
                engine_after,
                lane,
                minibatch,
                before.with_rule(leaf as int, SimbaRun::fallback_rule(low.eval)),
                SimbaMove::AppendRule,
                threshold,
                r,
            );
        lemma_trial_begins(
            before,
            engine_before.charged(0, 0),
            after,
            engine_after,
            lane,
            minibatch,
            before.with_rule(leaf as int, SimbaRun::fallback_rule(low.eval)),
            SimbaMove::AppendRule,
            threshold,
            r,
        );
    }
}

} // verus!
