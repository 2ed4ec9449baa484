//! Instructions in breadth: the run of COPRO as steps between evaluations.

use vstd::prelude::*;

use crate::names;
use crate::optimizer::engine::{Candidate, SlotView};
use crate::optimizer::rollouts;
use crate::optimizer::rollouts::{
    BatchPlan,
    BatchStep,
    Engine,
    EngineConfig,
    EngineError,
    Lane,
};
use crate::optimizer::target::LeafInfo;
use crate::optimizer::trial;
use crate::optimizer::OptimizerCommon;
use crate::text;
use crate::text_laws;

verus! {

/// The settings of COPRO.
#[derive(Clone, Copy, Debug, PartialEq, Eq, Structural)]
pub struct COPRO {
    pub breadth: usize,
    pub depth: usize,
    pub track_stats: bool,
    pub eval_concurrency: usize,
}

impl Default for COPRO {
    fn default() -> (r: Self)
        ensures
            r == (COPRO {
                breadth: 10,
                depth: 3,
                track_stats: false,
                eval_concurrency: rollouts::DEFAULT_EVAL_CONCURRENCY,
            }),
    {
        COPRO {
            breadth: 10,
            depth: 3,
            track_stats: false,
            eval_concurrency: rollouts::DEFAULT_EVAL_CONCURRENCY,
        }
    }
}

/// The name of the last output of a predictor.
pub open spec fn output_hint(leaf: LeafInfo) -> Seq<char> {
    if leaf.output_fields@.len() == 0 {
        "output"@
    } else {
        leaf.output_fields@.last().0@
    }
}

/// An instruction with a hint put behind it.
pub open spec fn hinted(base: Seq<char>, leaf: LeafInfo, depth: nat, number: nat) -> Seq<char> {
    base + "\n\nOptimization hint (d"@ + text::decimal(depth + 1) + " c"@ + text::decimal(number)
        + "): Be explicit and concise for `"@ + output_hint(leaf) + "`."@
}

/// The instructions that compete in a round: the one so far, and variants of it.
pub open spec fn options_of(breadth: nat, base: Seq<char>, leaf: LeafInfo, depth: nat) -> Seq<
    Seq<char>,
> {
    Seq::new(
        if breadth <= 1 {
            1
        } else {
            breadth
        },
        |i: int|
            if i == 0 {
                base
            } else {
                hinted(base, leaf, depth, i as nat)
            },
    )
}

impl COPRO {
    pub open spec fn common_spec(&self) -> OptimizerCommon {
        OptimizerCommon {
            eval_concurrency: self.eval_concurrency,
            max_metric_calls: None,
            max_lm_calls: None,
            cache_salt: 0,
            seed: None,
        }
    }

    pub fn common(&self) -> (r: OptimizerCommon)
        ensures
            r == self.common_spec(),
    {
        OptimizerCommon {
            eval_concurrency: self.eval_concurrency,
            max_metric_calls: None,
            max_lm_calls: None,
            cache_salt: 0,
            seed: None,
        }
    }

    pub fn engine_config(&self) -> (r: EngineConfig)
        ensures
            r == self.common_spec().engine_config_spec(),
    {
        self.common().engine_config()
    }

    /// The instructions that compete in a round.
    pub fn candidate_instructions(
        &self,
        base_instruction: &str,
        leaf: &LeafInfo,
        depth: usize,
    ) -> (r: Vec<String>)
        requires
            depth < usize::MAX,
        ensures
            text::views(r@) == options_of(
                self.breadth as nat,
                base_instruction@,
                *leaf,
                depth as nat,
            ),
    {
        let mut out: Vec<String> = Vec::new();
        out.push(base_instruction.to_owned());
        let last = leaf.output_fields.len();
        let mut i: usize = 1;
        while i < self.breadth
            invariant
                depth < usize::MAX,
                last == leaf.output_fields@.len(),
                1 <= i,
                self.breadth >= 1 ==> i <= self.breadth,
                self.breadth == 0 ==> i == 1,
                out@.len() == i,
                out@[0]@ == base_instruction@,
                forall|k: int|
                    1 <= k < i ==> (#[trigger] out@[k])@ == hinted(
                        base_instruction@,
                        *leaf,
                        depth as nat,
                        k as nat,
                    ),
            decreases self.breadth - i,
        {
            let mut option = base_instruction.to_owned();
            option.append("\n\nOptimization hint (d");
            text::push_decimal(&mut option, (depth + 1) as u64);
            option.append(" c");
            text::push_decimal(&mut option, i as u64);
            option.append("): Be explicit and concise for `");
            if last == 0 {
                option.append("output");
            } else {
                option.append(leaf.output_fields[last - 1].0.as_str());
            }
            option.append("`.");
            out.push(option);
            i += 1;
        }
        proof {
            assert(text::views(out@) =~= options_of(
                self.breadth as nat,
                base_instruction@,
                *leaf,
                depth as nat,
            ));
        }
        out
    }
}

/// What the driver of a run does next.
#[derive(Debug)]
pub enum CoproAction {
    /// Run the pending rollouts of the plan, commit them, and hand back the mean.
    Evaluate { plan: BatchPlan },
    /// Go on with `next_trial`.
    Next,
    /// Install the winner: the run is over.
    Install { winner: Candidate },
}

/// Why a run fails.
#[derive(Debug)]
pub enum CoproError {
    Breadth,
    NoPredictors,
    BudgetExhausted { needed: usize },
    Engine(EngineError),
}

impl CoproError {
    pub open spec fn text(&self) -> Seq<char> {
        match self {
            CoproError::Breadth => "breadth must be greater than 1"@,
            CoproError::NoPredictors => "no optimizable predictors found"@,
            CoproError::BudgetExhausted { needed } => "budget exhausted ("@ + text::decimal(
                *needed as nat,
            ) + " rollouts needed) during COPRO round"@,
            CoproError::Engine(e) => e.text(),
        }
    }

    pub fn message(&self) -> (r: String)
        ensures
            r@ == self.text(),
    {
        match self {
            CoproError::Breadth => "breadth must be greater than 1".to_owned(),
            CoproError::NoPredictors => "no optimizable predictors found".to_owned(),
            CoproError::BudgetExhausted { needed } => {
                let mut out = "budget exhausted (".to_owned();
                text::push_decimal(&mut out, *needed as u64);
                out.append(" rollouts needed) during COPRO round");
                out
            },
            CoproError::Engine(e) => e.message(),
        }
    }
}

/// A run of COPRO: the winner so far, the instruction of each predictor, and the round. `means`
/// are those of the options that were tried.
#[derive(Debug)]
pub struct CoproRun {
    pub config: COPRO,
    pub leaves: Vec<LeafInfo>,
    pub current: Candidate,
    pub instructions: Vec<(String, String)>,
    pub depth: usize,
    pub leaf: usize,
    pub options: Vec<String>,
    pub means: Vec<i64>,
}

/// The instructions by name, after the first `n` predictors were entered.
pub open spec fn first_instructions(leaves: Seq<LeafInfo>, n: nat) -> Map<Seq<char>, Seq<char>>
    decreases n,
{
    if n == 0 || n > leaves.len() {
        Map::empty()
    } else {
        first_instructions(leaves, (n - 1) as nat).insert(
            leaves[n - 1].name@,
            leaves[n - 1].instruction@,
        )
    }
}

/// The texts by name.
pub open spec fn texts(list: Seq<(String, String)>) -> Map<Seq<char>, Seq<char>> {
    names::map_of(list).map_values(|s: String| s@)
}

proof fn lemma_texts_put(before: Seq<(String, String)>, after: Seq<(String, String)>, name: Seq<char>, value: String)
    requires
        names::map_of(after) == names::map_of(before).insert(name, value),
    ensures
        texts(after) == texts(before).insert(name, value@),
{
    assert(texts(after) =~= texts(before).insert(name, value@));
}

proof fn lemma_first_instructions(leaves: Seq<LeafInfo>, n: nat)
    requires
        n <= leaves.len(),
    ensures
        forall|k: int|
            0 <= k < n ==> first_instructions(leaves, n).dom().contains(
                (#[trigger] leaves[k]).name@,
            ),
    decreases n,
{
    if n > 0 {
        lemma_first_instructions(leaves, (n - 1) as nat);
    }
}

/// The instruction begins with the one that a predictor of the name started from.
pub open spec fn grown_from(leaves: Seq<LeafInfo>, name: Seq<char>, instruction: Seq<char>) -> bool {
    exists|k: int|
        0 <= k < leaves.len() && (#[trigger] leaves[k]).name@ == name && text::has_prefix(
            instruction,
            leaves[k].instruction@,
        )
}

proof fn lemma_first_instructions_grow(leaves: Seq<LeafInfo>, n: nat)
    requires
        n <= leaves.len(),
    ensures
        forall|name: Seq<char>| #[trigger]
            first_instructions(leaves, n).dom().contains(name) ==> grown_from(
                leaves,
                name,
                first_instructions(leaves, n)[name],
            ),
    decreases n,
{
    if n > 0 {
        lemma_first_instructions_grow(leaves, (n - 1) as nat);
        let last = leaves[n - 1];
        assert(last.instruction@.subrange(0, last.instruction@.len() as int)
            =~= last.instruction@);
        assert(text::has_prefix(last.instruction@, leaves[n - 1].instruction@));
        assert(grown_from(leaves, last.name@, last.instruction@));
        let before = first_instructions(leaves, (n - 1) as nat);
        assert forall|name: Seq<char>| #[trigger]
            first_instructions(leaves, n).dom().contains(name) implies grown_from(
            leaves,
            name,
            first_instructions(leaves, n)[name],
        ) by {
            if name != last.name@ {
                assert(before.dom().contains(name));
            }
        }
    }
}

proof fn lemma_options_grow(leaves: Seq<LeafInfo>, name: Seq<char>, base: Seq<char>, option: Seq<char>)
    requires
        grown_from(leaves, name, base),
        text::has_prefix(option, base),
    ensures
        grown_from(leaves, name, option),
{
    let k = choose|k: int|
        0 <= k < leaves.len() && (#[trigger] leaves[k]).name@ == name && text::has_prefix(
            base,
            leaves[k].instruction@,
        );
    let first = leaves[k].instruction@;
    assert(option.subrange(0, first.len() as int) =~= base.subrange(0, first.len() as int));
    assert(text::has_prefix(option, first));
}

proof fn lemma_hinted(base: Seq<char>, leaf: LeafInfo, depth: nat, number: nat)
    ensures
        text::has_prefix(hinted(base, leaf, depth, number), base),
        hinted(base, leaf, depth, number).len() > base.len(),
        text::has_text(hinted(base, leaf, depth, number), output_hint(leaf)),
{
    reveal_strlit("\n\nOptimization hint (d");
    let a = "\n\nOptimization hint (d"@;
    let b = text::decimal(depth + 1);
    let c = " c"@;
    let d = text::decimal(number);
    let e = "): Be explicit and concise for `"@;
    text_laws::lemma_inside(base + a + b + c + d + e, output_hint(leaf), "`."@);
    let all = hinted(base, leaf, depth, number);
    assert(all.subrange(0, base.len() as int) =~= base);
}

proof fn lemma_hints_differ(base: Seq<char>, leaf: LeafInfo, depth: nat, m: nat, n: nat)
    requires
        hinted(base, leaf, depth, m) == hinted(base, leaf, depth, n),
    ensures
        m == n,
{
    let head = base + "\n\nOptimization hint (d"@ + text::decimal(depth + 1) + " c"@;
    let a = text::decimal(m);
    let b = text::decimal(n);
    let e = "): Be explicit and concise for `"@;
    let h = output_hint(leaf);
    let x = hinted(base, leaf, depth, m);
    let y = hinted(base, leaf, depth, n);
    assert(x.len() == head.len() + a.len() + e.len() + h.len() + "`."@.len());
    assert(y.len() == head.len() + b.len() + e.len() + h.len() + "`."@.len());
    assert(x.subrange(head.len() as int, (head.len() + a.len()) as int) =~= a);
    assert(y.subrange(head.len() as int, (head.len() + b.len()) as int) =~= b);
    text_laws::lemma_decimal_value(m);
    text_laws::lemma_decimal_value(n);
}

impl CoproRun {
    /// Every predictor has an instruction, which begins with the one that it started from, and the
    /// winner sets no other. While the run goes on, the options are those of the round, and not all
    /// of them were tried.
    pub open spec fn wf(&self) -> bool {
        &&& self.config.breadth > 1
        &&& self.leaves@.len() > 0
        &&& self.current.wf()
        &&& names::sorted_names(self.instructions@)
        &&& forall|k: int|
            0 <= k < self.leaves@.len() ==> texts(self.instructions@).dom().contains(
                (#[trigger] self.leaves@[k]).name@,
            )
        &&& forall|n: Seq<char>| #[trigger]
            texts(self.instructions@).dom().contains(n) ==> grown_from(
                self.leaves@,
                n,
                texts(self.instructions@)[n],
            )
        &&& forall|n: Seq<char>| #[trigger]
            self.current@.dom().contains(n) ==> texts(self.instructions@).dom().contains(n)
                && self.current@[n].instruction == Some(texts(self.instructions@)[n])
                && !self.current@[n].clear_instruction
        &&& self.leaf < self.leaves@.len()
        &&& self.depth <= self.config.depth
        &&& self.depth < self.config.depth ==> {
            &&& text::views(self.options@) == self.round_options()
            &&& self.means@.len() < self.options@.len()
        }
    }

    /// The options of the round.
    pub open spec fn round_options(&self) -> Seq<Seq<char>> {
        let leaf = self.leaves@[self.leaf as int];
        options_of(
            self.config.breadth as nat,
            texts(self.instructions@)[leaf.name@],
            leaf,
            self.depth as nat,
        )
    }

    fn fill_options(&mut self)
        requires
            old(self).config.breadth > 1,
            names::sorted_names(old(self).instructions@),
            old(self).leaf < old(self).leaves@.len(),
            old(self).depth < old(self).config.depth,
            texts(old(self).instructions@).dom().contains(
                old(self).leaves@[old(self).leaf as int].name@,
            ),
        ensures
            *final(self) == (CoproRun {
                options: final(self).options,
                means: final(self).means,
                ..*old(self)
            }),
            text::views(final(self).options@) == old(self).round_options(),
            final(self).options@.len() > 0,
            final(self).means@.len() == 0,
    {
        let leaf = &self.leaves[self.leaf];
        let options = match names::get(&self.instructions, leaf.name.as_str()) {
            Some(base) => self.config.candidate_instructions(base.as_str(), leaf, self.depth),
            None => Vec::new(),
        };
        proof {
            assert(text::views(options@).len() == options@.len());
        }
        self.options = options;
        self.means = Vec::new();
    }

    /// A run over the predictors.
    pub fn new(config: COPRO, leaves: Vec<LeafInfo>) -> (r: Result<Self, CoproError>)
        ensures
            match r {
                Ok(run) => {
                    &&& config.breadth > 1
                    &&& leaves@.len() > 0
                    &&& run.wf()
                    &&& run.config == config
                    &&& run.leaves == leaves
                    &&& run.current@ == Map::<Seq<char>, SlotView>::empty()
                    &&& texts(run.instructions@) == first_instructions(leaves@, leaves@.len())
                    &&& run.depth == 0
                    &&& run.leaf == 0
                    &&& run.means@.len() == 0
                },
                Err(CoproError::Breadth) => config.breadth <= 1,
                Err(CoproError::NoPredictors) => config.breadth > 1 && leaves@.len() == 0,
                Err(_) => false,
            },
    {
        if config.breadth <= 1 {
            return Err(CoproError::Breadth);
        }
        if leaves.len() == 0 {
            return Err(CoproError::NoPredictors);
        }
        let mut instructions: Vec<(String, String)> = Vec::new();
        let mut i: usize = 0;
        proof {
            assert(texts(instructions@) =~= first_instructions(leaves@, 0));
        }
        while i < leaves.len()
            invariant
                i <= leaves@.len(),
                names::sorted_names(instructions@),
                texts(instructions@) == first_instructions(leaves@, i as nat),
            decreases leaves@.len() - i,
        {
            let ghost before = instructions@;
            names::put(&mut instructions, leaves[i].name.clone(), leaves[i].instruction.clone());
            proof {
                lemma_texts_put(
                    before,
                    instructions@,
                    leaves@[i as int].name@,
                    leaves@[i as int].instruction,
                );
            }
            i += 1;
        }
        proof {
            lemma_first_instructions(leaves@, leaves@.len());
            lemma_first_instructions_grow(leaves@, leaves@.len());
        }
        let mut run = CoproRun {
            config,
            leaves,
            current: Candidate::new(),
            instructions,
            depth: 0,
            leaf: 0,
            options: Vec::new(),
            means: Vec::new(),
        };
        if config.depth > 0 {
            run.fill_options();
        }
        Ok(run)
    }

    /// Begins the evaluation of the next option; or ends the run behind the last round.
    pub fn next_trial(&self, engine: &mut Engine, lane: &Lane) -> (r: Result<
        CoproAction,
        CoproError,
    >)
        requires
            self.wf(),
            old(engine).wf(),
            old(engine).payloads@.len() < usize::MAX,
        ensures
            final(engine).wf(),
            if self.depth >= self.config.depth {
                &&& *final(engine) == *old(engine)
                &&& r matches Ok(CoproAction::Install { winner }) && winner.wf() && winner@
                    == self.current@
            } else {
                exists|row: usize, begun: Result<BatchStep, EngineError>| #[trigger]
                    trial::tried(
                        *old(engine),
                        *final(engine),
                        *lane,
                        trial::with_instruction(
                            self.current@,
                            self.leaves@[self.leaf as int].name@,
                            self.options@[self.means@.len() as int]@,
                        ),
                        None,
                        row,
                        begun,
                    ) && match begun {
                        Ok(BatchStep::Run(plan)) => r == Ok::<CoproAction, CoproError>(
                            CoproAction::Evaluate { plan },
                        ),
                        Ok(BatchStep::BudgetExhausted { needed }) => r == Err::<
                            CoproAction,
                            CoproError,
                        >(CoproError::BudgetExhausted { needed }),
                        Err(e) => r == Err::<CoproAction, CoproError>(CoproError::Engine(e)),
                    }
            },
    {
        if self.depth >= self.config.depth {
            return Ok(CoproAction::Install { winner: self.current.clone() });
        }
        let ghost before = *engine;
        let (row, begun) = trial::try_change(
            engine,
            lane,
            &self.current,
            self.leaves[self.leaf].name.as_str(),
            self.options[self.means.len()].as_str(),
            None,
        );
        let ghost seen = begun;
        proof {
            assert(trial::tried(
                before,
                *engine,
                *lane,
                trial::with_instruction(
                    self.current@,
                    self.leaves@[self.leaf as int].name@,
                    self.options@[self.means@.len() as int]@,
                ),
                None,
                row,
                seen,
            ));
        }
        match begun {
            Ok(BatchStep::Run(plan)) => Ok(CoproAction::Evaluate { plan }),
            Ok(BatchStep::BudgetExhausted { needed }) => Err(
                CoproError::BudgetExhausted { needed },
            ),
            Err(e) => Err(CoproError::Engine(e)),
        }
    }

    /// The end of a round: the first option with the highest mean becomes the instruction of
    /// the predictor, and the next predictor has its turn.
    pub open spec fn settles(before: CoproRun, after: CoproRun, means: Seq<i64>, b: int) -> bool {
        let name = before.leaves@[before.leaf as int].name@;
        let best = before.options@[b]@;
        &&& after.config == before.config
        &&& after.leaves == before.leaves
        &&& after.current@ == trial::with_instruction(before.current@, name, best)
        &&& texts(after.instructions@) == texts(before.instructions@).insert(name, best)
        &&& after.means@.len() == 0
        &&& if before.leaf + 1 < before.leaves@.len() {
            after.leaf == before.leaf + 1 && after.depth == before.depth
        } else {
            after.leaf == 0 && after.depth == before.depth + 1
        }
    }

    /// Takes the mean of the option that was tried.
    pub fn on_evaluated(&mut self, mean: i64) -> (r: CoproAction)
        requires
            old(self).wf(),
            old(self).depth < old(self).config.depth,
        ensures
            final(self).wf(),
            r is Next,
            ({
                let means = old(self).means@.push(mean);
                if means.len() < old(self).options@.len() {
                    &&& *final(self) == (CoproRun { means: final(self).means, ..*old(self) })
                    &&& final(self).means@ == means
                } else {
                    exists|b: int| #[trigger]
                        trial::is_first_best(means, b) && CoproRun::settles(
                            *old(self),
                            *final(self),
                            means,
                            b,
                        )
                }
            }),
    {
        let ghost before = *self;
        self.means.push(mean);
        if self.means.len() < self.options.len() {
            return CoproAction::Next;
        }
        let ghost means = self.means@;
        let b = trial::best_index(&self.means);
        let best = self.options[b].clone();
        let name = self.leaves[self.leaf].name.clone();
        let ghost shown_name = name@;
        self.current.set_instruction(name.as_str(), best.as_str());
        let ghost listed = self.instructions@;
        let ghost shown = best;
        names::put(&mut self.instructions, name, best);
        proof {
            lemma_texts_put(listed, self.instructions@, shown_name, shown);
        }
        self.means = Vec::new();
        let count = self.leaves.len();
        if self.leaf + 1 < count {
            self.leaf = self.leaf + 1;
        } else {
            self.leaf = 0;
            self.depth = self.depth + 1;
        }
        proof {
            let base = texts(before.instructions@)[shown_name];
            assert(texts(before.instructions@).dom().contains(shown_name));
            assert(before.round_options()[b as int] == shown@);
            if b > 0 {
                assert(0 <= b < before.round_options().len());
                assert(before.round_options()[b as int] == hinted(
                    base,
                    before.leaves@[before.leaf as int],
                    before.depth as nat,
                    b as nat,
                ));
                lemma_hinted(
                    base,
                    before.leaves@[before.leaf as int],
                    before.depth as nat,
                    b as nat,
                );
            } else {
                assert(base.subrange(0, base.len() as int) =~= base);
                assert(text::has_prefix(base, base));
                assert(before.round_options()[0] == base);
            }
            lemma_options_grow(before.leaves@, shown_name, base, shown@);
            assert forall|k: int| 0 <= k < self.leaves@.len() implies texts(
                self.instructions@,
            ).dom().contains((#[trigger] self.leaves@[k]).name@) by {
                assert(before.leaves@[k] == self.leaves@[k]);
            }
            assert(texts(self.instructions@).dom().contains(
                self.leaves@[self.leaf as int].name@,
            ));
        }
        if self.depth < self.config.depth {
            self.fill_options();
        }
        proof {
            assert(trial::is_first_best(means, b as int));
            assert(CoproRun::settles(before, *self, means, b as int));
        }
        CoproAction::Next
    }
}

/// Every instruction that competes in a round begins with the one so far. The first of them is that
/// one, and each other one is longer, names the last output of the predictor, and is unlike the rest.
pub proof fn competing_instructions_keep_the_one_so_far(
    config: &COPRO,
    base: &str,
    leaf: &LeafInfo,
    depth: usize,
    r: Vec<String>,
    i: int,
    j: int,
)
    requires
        depth < usize::MAX,
        call_ensures(COPRO::candidate_instructions, (config, base, leaf, depth), r),
        0 <= i < r@.len(),
        0 <= j < r@.len(),
    ensures
        r@.len() == if config.breadth == 0 {
            1
        } else {
            config.breadth as int
        },
        r@[0]@ == base@,
        text::has_prefix(r@[i]@, base@),
        i > 0 ==> r@[i]@.len() > base@.len(),
        i > 0 && leaf.output_fields@.len() > 0 ==> text::has_text(
            r@[i]@,
            leaf.output_fields@.last().0@,
        ),
        i != j ==> r@[i]@ != r@[j]@,
{
    let shown = text::views(r@);
    assert(shown == options_of(config.breadth as nat, base@, *leaf, depth as nat));
    assert(shown.len() == r@.len());
    assert(text::has_prefix(base@, base@)) by {
        assert(base@.subrange(0, base@.len() as int) =~= base@);
    }
    assert(shown[0] == r@[0]@ && shown[i] == r@[i]@ && shown[j] == r@[j]@);
    lemma_hinted(base@, *leaf, depth as nat, i as nat);
    lemma_hinted(base@, *leaf, depth as nat, j as nat);
    if i != j && i > 0 && j > 0 && r@[i]@ == r@[j]@ {
        lemma_hints_differ(base@, *leaf, depth as nat, i as nat, j as nat);
    }
}

/// Each trial puts the next option of the round to its predictor, and leaves the demos of it and all
/// other predictors as they are.
pub proof fn every_option_is_tried(
    run: &CoproRun,
    engine: &mut Engine,
    lane: &Lane,
    r: Result<CoproAction, CoproError>,
)
    requires
        run.wf(),
        old(engine).wf(),
        run.depth < run.config.depth,
        call_ensures(CoproRun::next_trial, (run, engine, lane), r),
    ensures
        !(r matches Ok(CoproAction::Install { .. })),
        final(engine).payloads@.len() > old(engine).payloads@.len() ==> {
            let name = run.leaves@[run.leaf as int].name@;
            let content = final(engine).payloads@.last()->candidate@;
            &&& content.dom() == run.current@.dom().insert(name)
            &&& content[name].instruction == Some(run.options@[run.means@.len() as int]@)
            &&& run.current@.dom().contains(name) ==> content[name].demos
                == run.current@[name].demos
            &&& forall|n: Seq<char>| #[trigger]
                run.current@.dom().contains(n) && n != name ==> content[n] == run.current@[n]
        },
        r matches Ok(CoproAction::Evaluate { plan }) ==> plan.indices@.len() == lane.uids@.len(),
{
    let name = run.leaves@[run.leaf as int].name@;
    let content = trial::with_instruction(
        run.current@,
        name,
        run.options@[run.means@.len() as int]@,
    );
    let (row, begun) = choose|row: usize, begun: Result<BatchStep, EngineError>| #[trigger]
        trial::tried(*old(engine), *final(engine), *lane, content, None, row, begun) && match begun {
            Ok(BatchStep::Run(plan)) => r == Ok::<CoproAction, CoproError>(
                CoproAction::Evaluate { plan },
            ),
            Ok(BatchStep::BudgetExhausted { needed }) => r == Err::<CoproAction, CoproError>(
                CoproError::BudgetExhausted { needed },
            ),
            Err(e) => r == Err::<CoproAction, CoproError>(CoproError::Engine(e)),
        };
    trial::lemma_tried(*old(engine), *final(engine), *lane, content, None, row, begun);
    assert(content.dom() =~= run.current@.dom().insert(name));
}

/// When all options of a round were tried, the first of those with the highest mean becomes the
/// instruction of the predictor. Its demos and the other predictors stay as they are.
pub proof fn the_best_option_of_a_round_is_kept(run: &mut CoproRun, mean: i64, r: CoproAction)
    requires
        old(run).wf(),
        old(run).depth < old(run).config.depth,
        old(run).means@.len() + 1 == old(run).options@.len(),
        call_ensures(CoproRun::on_evaluated, (run, mean), r),
    ensures
        exists|b: int|
            0 <= b < old(run).options@.len() && {
                let name = old(run).leaves@[old(run).leaf as int].name@;
                let means = old(run).means@.push(mean);
                &&& forall|j: int| 0 <= j < means.len() ==> #[trigger] means[j] <= means[b]
                &&& forall|j: int| 0 <= j < b ==> #[trigger] means[j] < means[b]
                &&& final(run).current@.dom() == old(run).current@.dom().insert(name)
                &&& final(run).current@[name].instruction == Some(#[trigger] old(run).options@[b]@)
                &&& old(run).current@.dom().contains(name) ==> final(run).current@[name].demos
                    == old(run).current@[name].demos
                &&& forall|n: Seq<char>| #[trigger]
                    old(run).current@.dom().contains(n) && n != name ==> final(run).current@[n]
                        == old(run).current@[n]
            },
{
    let name = old(run).leaves@[old(run).leaf as int].name@;
    let means = old(run).means@.push(mean);
    let b = choose|b: int| #[trigger]
        trial::is_first_best(means, b) && CoproRun::settles(*old(run), *final(run), means, b);
    assert(final(run).current@.dom() =~= old(run).current@.dom().insert(name));
    assert(final(run).current@[name].instruction == Some(old(run).options@[b]@));
}

/// Every instruction that is installed begins with the one that a predictor of that name started
/// from.
pub proof fn winners_keep_the_first_instructions(
    run: &CoproRun,
    engine: &mut Engine,
    lane: &Lane,
    winner: Candidate,
    name: Seq<char>,
)
    requires
        run.wf(),
        call_ensures(
            CoproRun::next_trial,
            (run, engine, lane),
            Ok::<CoproAction, CoproError>(CoproAction::Install { winner }),
        ),
        winner@.dom().contains(name),
    ensures
        winner@[name].instruction is Some,
        exists|k: int|
            0 <= k < run.leaves@.len() && (#[trigger] run.leaves@[k]).name@ == name
                && text::has_prefix(winner@[name].instruction->0, run.leaves@[k].instruction@),
{
    assert(run.current@.dom().contains(name));
    assert(grown_from(run.leaves@, name, texts(run.instructions@)[name]));
}

/// A run that its budget cut short says how many rollouts it needed, and one that the engine
/// stopped says what the engine said.
pub proof fn failures_say_what_was_needed(
    e: &CoproError,
    r: String,
    inner: &EngineError,
    said: String,
)
    requires
        call_ensures(CoproError::message, (e,), r),
        call_ensures(EngineError::message, (inner,), said),
    ensures
        *e matches CoproError::BudgetExhausted { needed } ==> text::has_text(
            r@,
            text::decimal(needed as nat),
        ),
        *e == CoproError::Engine(*inner) ==> r@ == said@,
{
    match *e {
        CoproError::BudgetExhausted { needed } => {
            text_laws::lemma_inside(
                "budget exhausted ("@,
                text::decimal(needed as nat),
                " rollouts needed) during COPRO round"@,
            );
        },
        _ => {},
    }
}

/// The limits of a search are those of its engine, and it evaluates with as many at a time as it
/// says, with one where it says none.
pub proof fn limits_are_those_of_the_search(g: &COPRO, r: EngineConfig)
    requires
        call_ensures(COPRO::engine_config, (g,), r),
    ensures
        r.budget.max_metric_calls is None,
        r.budget.max_lm_calls is None,
        r.budget.max_tokens is None,
        g.eval_concurrency > 0 ==> r.concurrency == g.eval_concurrency,
        g.eval_concurrency == 0 ==> r.concurrency == 1,
{
}

} // verus!
