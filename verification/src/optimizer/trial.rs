//! Steps that several optimizers take: trying one instruction, and choosing by weight.

use vstd::prelude::*;

use crate::optimizer::engine;
use crate::optimizer::engine::{Candidate, SlotView};
use crate::optimizer::matrix;
use crate::optimizer::rollouts::{BatchStep, CandidateEval, Engine, EngineError, Lane, RolloutOutcome};

verus! {

/// An average: its place among all scores, and its text with three decimals.
#[derive(Debug)]
pub struct Mean {
    pub key: i64,
    pub text: String,
}

impl Clone for Mean {
    fn clone(&self) -> (r: Self)
        ensures
            r == *self,
    {
        Mean { key: self.key, text: self.text.clone() }
    }
}

/// The content of a candidate that sets one instruction.
pub open spec fn single(name: Seq<char>, instruction: Seq<char>) -> Map<Seq<char>, SlotView> {
    Map::<Seq<char>, SlotView>::empty().insert(
        name,
        SlotView { instruction: Some(instruction), clear_instruction: false, demos: None },
    )
}

/// A candidate with the content was registered, and its evaluation on the examples begun.
pub open spec fn tried(
    before: Engine,
    after: Engine,
    lane: Lane,
    content: Map<Seq<char>, SlotView>,
    subset: Option<Seq<usize>>,
    row: usize,
    begun: Result<BatchStep, EngineError>,
) -> bool {
    exists|c: Candidate| #[trigger]
        c.wf() && c@ == content && Engine::registers(
            before,
            after,
            content,
            c.content_hash(),
            row as int,
        ) && after.begins(lane, seq![row], subset, begun)
}

/// What is tried has its row: the hash of the row is that of a candidate with the content, and a row
/// that was added holds it. The plan is for that row.
pub proof fn lemma_tried(
    before: Engine,
    after: Engine,
    lane: Lane,
    content: Map<Seq<char>, SlotView>,
    subset: Option<Seq<usize>>,
    row: usize,
    begun: Result<BatchStep, EngineError>,
)
    requires
        tried(before, after, lane, content, subset, row, begun),
    ensures
        row < after.payloads@.len(),
        after.payloads@[row as int] is Params,
        after.ledger.spend == before.ledger.spend,
        exists|c: Candidate| #[trigger]
            c.wf() && c@ == content && after.ledger.hashes@[row as int] == c.content_hash(),
        after.payloads@.len() == before.payloads@.len() || after.payloads@.len()
            == before.payloads@.len() + 1,
        after.payloads@.len() > before.payloads@.len() ==> row == before.payloads@.len()
            && after.payloads@[row as int]->candidate@ == content,
        begun matches Ok(BatchStep::Run(plan)) ==> plan.candidates@ == seq![row] && (subset
            matches Some(s) ==> plan.indices@ == s),
{
}

/// Registers a candidate and begins its evaluation.
pub fn try_candidate(
    engine: &mut Engine,
    lane: &Lane,
    candidate: Candidate,
    subset: Option<&[usize]>,
) -> (r: (usize, Result<BatchStep, EngineError>))
    requires
        old(engine).wf(),
        candidate.wf(),
        old(engine).payloads@.len() < usize::MAX,
    ensures
        final(engine).wf(),
        tried(
            *old(engine),
            *final(engine),
            *lane,
            candidate@,
            crate::optimizer::rollouts::subset_view(subset),
            r.0,
            r.1,
        ),
{
    let ghost shown = candidate;
    let row = engine.register(candidate);
    let begun = engine.evaluate(lane, row, subset);
    proof {
        assert(shown.wf());
    }
    (row, begun)
}

/// Registers the candidate that sets one instruction, and begins its evaluation.
pub fn try_instruction(
    engine: &mut Engine,
    lane: &Lane,
    name: &str,
    instruction: &str,
    subset: &[usize],
) -> (r: (usize, Result<BatchStep, EngineError>))
    requires
        old(engine).wf(),
        old(engine).payloads@.len() < usize::MAX,
    ensures
        final(engine).wf(),
        tried(
            *old(engine),
            *final(engine),
            *lane,
            single(name@, instruction@),
            Some(subset@),
            r.0,
            r.1,
        ),
{
    try_candidate(engine, lane, Candidate::with_instruction(name, instruction), Some(subset))
}

/// `b` has the highest mean, and is the first that has it.
pub open spec fn is_first_best(means: Seq<i64>, b: int) -> bool {
    &&& 0 <= b < means.len()
    &&& forall|j: int| 0 <= j < means.len() ==> #[trigger] means[j] <= means[b]
    &&& forall|j: int| 0 <= j < b ==> #[trigger] means[j] < means[b]
}

/// The first of the highest means.
pub fn best_index(means: &Vec<i64>) -> (r: usize)
    requires
        means@.len() > 0,
    ensures
        is_first_best(means@, r as int),
{
    let mut best: usize = 0;
    let mut i: usize = 1;
    while i < means.len()
        invariant
            best < i <= means@.len(),
            forall|j: int| 0 <= j < i ==> #[trigger] means@[j] <= means@[best as int],
            forall|j: int| 0 <= j < best ==> #[trigger] means@[j] < means@[best as int],
        decreases means@.len() - i,
    {
        if means[i] > means[best] {
            best = i;
        }
        i += 1;
    }
    best
}

/// A predictor gets an instruction and keeps its demos.
pub open spec fn with_instruction(
    content: Map<Seq<char>, SlotView>,
    name: Seq<char>,
    instruction: Seq<char>,
) -> Map<Seq<char>, SlotView> {
    content.insert(
        name,
        SlotView {
            instruction: Some(instruction),
            clear_instruction: false,
            demos: engine::slot_of(content, name).demos,
        },
    )
}

/// Registers a candidate with one instruction exchanged, and begins its evaluation.
pub fn try_change(
    engine: &mut Engine,
    lane: &Lane,
    current: &Candidate,
    name: &str,
    instruction: &str,
    subset: Option<&[usize]>,
) -> (r: (usize, Result<BatchStep, EngineError>))
    requires
        old(engine).wf(),
        current.wf(),
        old(engine).payloads@.len() < usize::MAX,
    ensures
        final(engine).wf(),
        tried(
            *old(engine),
            *final(engine),
            *lane,
            with_instruction(current@, name@, instruction@),
            crate::optimizer::rollouts::subset_view(subset),
            r.0,
            r.1,
        ),
{
    let mut candidate = current.clone();
    candidate.set_instruction(name, instruction);
    try_candidate(engine, lane, candidate, subset)
}

proof fn lemma_sum_grows(counts: Seq<usize>, a: nat, b: nat)
    requires
        a <= b <= counts.len(),
    ensures
        matrix::sum_of(counts, a) <= matrix::sum_of(counts, b),
    decreases b,
{
    if a < b {
        lemma_sum_grows(counts, a, (b - 1) as nat);
    }
}

/// The sum of the weights.
pub fn total_weight(weights: &Vec<usize>) -> (r: usize)
    requires
        matrix::sum_of(weights@, weights@.len()) <= usize::MAX,
    ensures
        r == matrix::sum_of(weights@, weights@.len()),
{
    let mut total: usize = 0;
    let mut i: usize = 0;
    while i < weights.len()
        invariant
            i <= weights@.len(),
            matrix::sum_of(weights@, weights@.len()) <= usize::MAX,
            total == matrix::sum_of(weights@, i as nat),
        decreases weights@.len() - i,
    {
        proof {
            lemma_sum_grows(weights@, (i + 1) as nat, weights@.len());
        }
        total += weights[i];
        i += 1;
    }
    total
}

/// The one whose share of the total weight holds the drawn number. Without any weight it is
/// the first.
pub open spec fn picked(weights: Seq<usize>, drawn: nat, r: int) -> bool {
    &&& 0 <= r < weights.len()
    &&& if matrix::sum_of(weights, weights.len()) == 0 {
        r == 0
    } else {
        matrix::sum_of(weights, r as nat) <= drawn < matrix::sum_of(weights, (r + 1) as nat)
    }
}

/// Picks by weight.
pub fn pick(weights: &Vec<usize>, drawn: usize) -> (r: usize)
    requires
        weights@.len() > 0,
        matrix::sum_of(weights@, weights@.len()) <= usize::MAX,
        matrix::sum_of(weights@, weights@.len()) > 0 ==> drawn < matrix::sum_of(
            weights@,
            weights@.len(),
        ),
    ensures
        picked(weights@, drawn as nat, r as int),
{
    let total = total_weight(weights);
    if total == 0 {
        return 0;
    }
    let mut target: usize = drawn;
    let mut i: usize = 0;
    while i < weights.len()
        invariant
            i <= weights@.len(),
            total == matrix::sum_of(weights@, weights@.len()),
            total > 0,
            drawn < total,
            target + matrix::sum_of(weights@, i as nat) == drawn,
        decreases weights@.len() - i,
    {
        if target < weights[i] {
            return i;
        }
        target -= weights[i];
        i += 1;
    }
    proof {
        assert(false);
    }
    0
}

/// One that has no weight is never picked when another one has some.
pub proof fn picked_has_weight(weights: Seq<usize>, drawn: nat, r: int)
    requires
        picked(weights, drawn, r),
        matrix::sum_of(weights, weights.len()) > 0,
    ensures
        weights[r] > 0,
{
}

/// Every rollout was given feedback.
pub open spec fn all_have_feedback(rollouts: Seq<RolloutOutcome>) -> bool {
    forall|i: int| 0 <= i < rollouts.len() ==> (#[trigger] rollouts[i]).eval.feedback is Some
}

pub fn has_all_feedback(eval: &CandidateEval) -> (r: bool)
    ensures
        r == all_have_feedback(eval.rollouts@),
{
    let mut i: usize = 0;
    while i < eval.rollouts.len()
        invariant
            i <= eval.rollouts@.len(),
            forall|k: int| 0 <= k < i ==> (#[trigger] eval.rollouts@[k]).eval.feedback is Some,
        decreases eval.rollouts@.len() - i,
    {
        if eval.rollouts[i].eval.feedback.is_none() {
            return false;
        }
        i += 1;
    }
    true
}

proof fn lemma_sums_grow(weights: Seq<usize>, a: nat, b: nat)
    requires
        a <= b <= weights.len(),
    ensures
        matrix::sum_of(weights, a) <= matrix::sum_of(weights, b),
    decreases b,
{
    if a < b {
        lemma_sums_grow(weights, a, (b - 1) as nat);
    }
}

/// Every choice has some weight, a larger draw never picks an earlier one, and none is picked by more
/// of the draws than it has weight.
pub proof fn picks_go_by_weight(
    weights: &Vec<usize>,
    drawn: usize,
    r: usize,
    later: usize,
    s: usize,
    total: nat,
)
    requires
        call_ensures(pick, (weights, drawn), r),
        call_ensures(pick, (weights, later), s),
        total == matrix::sum_of(weights@, weights@.len()),
        total > 0,
        drawn <= later < total,
    ensures
        r < weights@.len(),
        weights@[r as int] > 0,
        r <= s,
        later - drawn >= weights@[r as int] ==> r < s,
        drawn < weights@[0] ==> r == 0,
{
    if s < r {
        lemma_sums_grow(weights@, (s + 1) as nat, r as nat);
    }
    if r > 0 {
        lemma_sums_grow(weights@, 1, r as nat);
        assert(matrix::sum_of(weights@, 0) == 0);
        assert(matrix::sum_of(weights@, 1) == weights@[0]);
    }
}

/// The best of some means is one that none exceeds, and the first of those.
pub proof fn no_mean_is_beyond_the_best(means: &Vec<i64>, r: usize, j: int)
    requires
        call_ensures(best_index, (means,), r),
        0 <= j < means@.len(),
    ensures
        r < means@.len(),
        means@[j] <= means@[r as int],
        j < r ==> means@[j] < means@[r as int],
{
}

pub proof fn lemma_weight_counts(weights: Seq<usize>, n: nat, k: int)
    requires
        0 <= k < n <= weights.len(),
    ensures
        weights[k] <= matrix::sum_of(weights, n),
    decreases n,
{
    if k < n - 1 {
        lemma_weight_counts(weights, (n - 1) as nat, k);
    }
}

} // verus!
