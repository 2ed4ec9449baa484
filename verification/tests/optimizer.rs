//! Candidates, budgets, rollouts and what is made of their scores.

use std::sync::Arc;

use dspy_rs::json::{json_string, Json, JsonMap};
use dspy_rs::optimizer::engine::{Budget, Candidate, CandidateSlot, RolloutCache, Spend};
use dspy_rs::optimizer::gepa::GEPA;
use dspy_rs::optimizer::harvest::{collect_demo_candidates, select_demos};
use dspy_rs::optimizer::matrix::ScoreMatrix;
use dspy_rs::optimizer::pareto::{GEPACandidate, ParetoFrontier};
use dspy_rs::optimizer::program_engine::{example_uid, rollout_failure, ProgramEvalEngine};
use dspy_rs::optimizer::rollouts::{
    BatchPlan, BatchStep, CandidateEval, CandidatePayload, Engine, EngineConfig, EngineError,
    FreshRollout, Gauge, GateOutcome, GateStep, Lane, Overlay,
};
use dspy_rs::optimizer::structural::{
    Edit, EditKind, EditableNode, EditableProgram, LegalEdit, StructuralSearch,
};
use dspy_rs::optimizer::target::{
    bind_on_module, conclude_program_rollout, example_source,
    install_slot, DemoRow, ExampleSource, LeafInfo, OptimizeTarget, PredictState, PredictorFacts,
    ProgramMetric, ProgramNode,
};
use dspy_rs::optimizer::trial::{best_index, pick};
use dspy_rs::trace::{Eval, LmUsage, Score, Span, Trace, FULL_SCORE};

/// The place of a number among all numbers.
fn key(n: f64) -> i64 {
    let bits = n.to_bits() as i64;
    if bits < 0 {
        !(bits & i64::MAX)
    } else {
        bits
    }
}

fn score(n: f64) -> Score {
    Score { key: key(n), reach: key(n + 1e-6) }
}

fn eval(n: f64) -> Eval {
    Eval { score: score(n), score_text: format!("{n:.3}"), feedback: None }
}

fn demo(pairs: &[(&str, &str)]) -> JsonMap {
    pairs
        .iter()
        .map(|(k, v)| (k.to_string(), Json::Str(v.to_string())))
        .collect()
}

fn text_of(map: &JsonMap, name: &str) -> String {
    match map.iter().find(|(n, _)| n == name) {
        Some((_, Json::Str(s))) => s.clone(),
        other => panic!("expected a text, got: {other:?}"),
    }
}

fn span(component: &str, input: &str, output: &str, eval: Option<Eval>) -> Span {
    Span {
        component: component.to_string(),
        seq: 0,
        usage: LmUsage::default(),
        input: Some(demo(&[("prompt", input)])),
        output: Some(demo(&[("answer", output)])),
        error: None,
        raw_output: None,
        events: vec![],
        eval,
        complete: true,
    }
}

fn trace(spans: Vec<Span>) -> Arc<Trace> {
    Arc::new(Trace { spans, outcome: None })
}

#[test]
fn candidate_hash_is_stable_across_orderings() {
    let mut a = Candidate::new();
    a.set_instruction("drafter", "be brief");
    a.set_demos("refiner", vec![demo(&[("q", "one"), ("a", "1"), ("b", "2")])]);

    let mut b = Candidate::new();
    b.set_demos("refiner", vec![demo(&[("q", "one"), ("a", "1"), ("b", "2")])]);
    b.set_instruction("drafter", "be brief");

    assert_eq!(a.stable_hash(), b.stable_hash());

    let mut c = a.clone();
    c.set_instruction("drafter", "be thorough");
    assert_ne!(a.stable_hash(), c.stable_hash());

    let empty = Candidate::new();
    assert_ne!(a.stable_hash(), empty.stable_hash());
    assert_eq!(empty.stable_hash(), Candidate::default().stable_hash());

    let mut d = Candidate::new();
    d.set_instruction("drafter", "be brief");
    d.set_demos("refiner", vec![demo(&[("b", "2"), ("q", "one"), ("a", "1")])]);
    assert_eq!(a.stable_hash(), d.stable_hash());
}

#[test]
fn explicit_clears_are_distinct_candidate_content() {
    let unset = Candidate::with_instruction("drafter", "x");
    let mut cleared = Candidate::with_instruction("drafter", "x");
    cleared.clear_instruction("drafter");
    assert_ne!(unset.stable_hash(), cleared.stable_hash());

    // Clearing demos (empty set) differs from leaving them unset.
    let mut no_demos = Candidate::new();
    no_demos.set_demos("drafter", Vec::new());
    assert_ne!(no_demos.stable_hash(), Candidate::new().stable_hash());

    // to_params preserves the explicit clear.
    let params = cleared.to_params();
    assert!(params.get("drafter").is_some());
    assert_eq!(params.get("drafter").unwrap().instruction, None);
    assert!(params.get("drafter").unwrap().clear_instruction);
}

#[test]
fn candidates_give_back_what_was_set() {
    let mut candidate = Candidate::new();
    assert!(candidate.is_empty());
    candidate
        .set_instruction("drafter", "be brief")
        .set_demos("drafter", vec![demo(&[("q", "one")])]);
    assert!(!candidate.is_empty());
    assert_eq!(candidate.instruction_of("drafter"), Some("be brief"));
    assert_eq!(candidate.instruction_of("refiner"), None);
    assert_eq!(candidate.demos_of("drafter").map(|d| d.len()), Some(1));
    candidate.clear_instruction("drafter");
    assert_eq!(candidate.instruction_of("drafter"), None);
    assert_eq!(candidate.demos_of("drafter").map(|d| d.len()), Some(1));
    candidate.clear_instruction("drafter").set_instruction("drafter", "again");
    assert_eq!(candidate.instruction_of("drafter"), Some("again"));
}

#[test]
fn score_matrix_pareto_wins_frontier_and_stats() {
    let mut matrix = ScoreMatrix::new(3);
    // c0 wins example 0; c1 wins examples 1 and 2; c2 dominated everywhere.
    matrix.record(0, 0, score(0.9));
    matrix.record(0, 1, score(0.5));
    matrix.record(0, 2, score(0.5));
    matrix.record(1, 0, score(0.5));
    matrix.record(1, 1, score(0.9));
    matrix.record(1, 2, score(0.9));
    matrix.record(2, 0, score(0.3));
    matrix.record(2, 1, score(0.3));
    matrix.record(2, 2, score(0.3));

    let pareto = matrix.pareto();
    assert_eq!(pareto.wins(0), 1);
    assert_eq!(pareto.wins(1), 2);
    assert_eq!(pareto.wins(2), 0);
    assert_eq!(pareto.frontier(), vec![0, 1]);
    assert_eq!(
        pareto.best_scores(),
        &[Some(score(0.9)), Some(score(0.9)), Some(score(0.9))]
    );

    let stats = pareto.statistics();
    assert_eq!(stats.num_candidates, 2);
    assert_eq!(stats.num_examples_covered, 3);
    assert_eq!(stats.max_coverage, 2);
    assert_eq!(stats.min_coverage, 1);
    assert_eq!(stats.total_coverage, 3);

    // Ties within tolerance count as wins.
    matrix.record(2, 0, score(0.9));
    assert_eq!(matrix.pareto().wins(2), 1);

    // Column-restricted view: over example 0 only, c1 no longer wins.
    let restricted = matrix.pareto_over(&[0]);
    assert_eq!(restricted.wins(1), 0);
    assert_eq!(restricted.frontier(), vec![0, 2]);

    let means: Vec<i64> = (0..3)
        .map(|row| {
            let filled = matrix.filled(row);
            let total: f64 = filled.iter().map(|s| f64::from_bits(s.key as u64)).sum();
            key(total / filled.len() as f64)
        })
        .collect();
    assert_eq!(matrix.best_by_mean(&means), Some(1));
    assert_eq!(means[0], key((0.9 + 0.5 + 0.5) / 3.0));
}

#[test]
fn scores_within_tolerance_tie() {
    let mut matrix = ScoreMatrix::new(1);
    matrix.record(0, 0, score(0.9));
    matrix.record(1, 0, score(0.9 - 5e-7));
    matrix.record(2, 0, score(0.8));
    let pareto = matrix.pareto();
    assert_eq!(pareto.frontier(), vec![0, 1]);
}

#[test]
fn budget_allows_enforces_caps() {
    let budget = Budget {
        max_metric_calls: Some(4),
        max_lm_calls: None,
        max_tokens: None,
    };
    let mut spend = Spend::default();
    assert!(budget.allows(&spend, 4));
    assert!(!budget.allows(&spend, 5));
    spend.metric_calls = 3;
    assert!(budget.allows(&spend, 1));
    assert!(!budget.allows(&spend, 2));
    // Zero upcoming rollouts always fit (cache-only batches).
    spend.metric_calls = 10;
    assert!(budget.allows(&spend, 0));

    let token_budget = Budget {
        max_metric_calls: None,
        max_lm_calls: None,
        max_tokens: Some(100),
    };
    let mut spend = Spend::default();
    assert!(token_budget.allows(&spend, 1));
    spend.tokens.total_tokens = 100;
    assert!(!token_budget.allows(&spend, 1));
}

#[test]
fn cached_evaluations_are_found_by_all_four_parts_of_their_key() {
    let mut cache = RolloutCache::new();
    assert!(cache.is_empty());
    cache.insert(1, 2, 3, 4, eval(0.5));
    assert_eq!(cache.len(), 1);
    assert_eq!(cache.get(1, 2, 3, 4).map(|e| e.score), Some(score(0.5)));
    assert!(cache.get(2, 1, 3, 4).is_none());
    assert!(cache.get(1, 2, 3, 5).is_none());
    assert_ne!(RolloutCache::key(1, 2, 3, 4), RolloutCache::key(1, 2, 4, 3));
}

fn engine(max_metric_calls: Option<usize>) -> Engine {
    let mut config = EngineConfig::default();
    config.budget.max_metric_calls = max_metric_calls;
    Engine::new(config)
}

fn lane() -> Lane {
    Lane { baseline: 7, uids: vec![100, 101, 102] }
}

fn run_of(step: Result<BatchStep, EngineError>) -> BatchPlan {
    match step {
        Ok(BatchStep::Run(plan)) => plan,
        other => panic!("expected a batch, got: {other:?}"),
    }
}

fn answered(plan: &BatchPlan, n: f64) -> Vec<FreshRollout> {
    plan.pending
        .iter()
        .map(|(candidate, example)| FreshRollout {
            candidate: *candidate,
            example: *example,
            eval: eval(n),
            trace: trace(vec![span("draft", "q", "a", None)]),
        })
        .collect()
}

#[test]
fn candidates_of_the_same_content_are_registered_once() {
    let mut engine = engine(None);
    let first = engine.register(Candidate::with_instruction("draft", "x"));
    let second = engine.register(Candidate::with_instruction("draft", "y"));
    let again = engine.register(Candidate::with_instruction("draft", "x"));
    assert_eq!(first, again);
    assert_ne!(first, second);
    assert_eq!(engine.num_candidates(), 2);
    assert_ne!(engine.candidate_hash(first), engine.candidate_hash(second));
    assert_eq!(
        engine.candidate(second).and_then(|c| c.instruction_of("draft")),
        Some("y")
    );
}

#[test]
fn a_batch_is_run_once_and_then_cached() {
    let mut engine = engine(Some(3));
    let row = engine.register(Candidate::with_instruction("draft", "x"));
    let plan = run_of(engine.evaluate_many(&lane(), &[row], None));
    assert_eq!(plan.pending, vec![(row, 0), (row, 1), (row, 2)]);
    let fresh = answered(&plan, 0.5);
    let evals = engine.commit_many(&lane(), plan, fresh, 1);
    assert_eq!(evals.len(), 1);
    assert_eq!(evals[0].scores(), vec![score(0.5); 3]);
    assert!(evals[0].rollouts[0].trace.is_some());
    assert_eq!(engine.spend().metric_calls, 3);
    assert_eq!(engine.spend().lm_spans, 3);
    assert_eq!(engine.matrix().score(row, 2), Some(score(0.5)));

    let plan = run_of(engine.evaluate_many(&lane(), &[row], Some(&[2, 0])));
    assert!(plan.pending.is_empty());
    assert_eq!(plan.cached.len(), 2);
    let evals = engine.commit_many(&lane(), plan, vec![], 0);
    assert_eq!(evals[0].rollouts[0].example, 2);
    assert!(evals[0].rollouts[0].trace.is_none());
    assert_eq!(engine.spend().metric_calls, 3);
    assert_eq!(engine.spend().cache_hits, 2);
}

#[test]
fn an_example_that_is_asked_for_twice_is_run_once() {
    let mut engine = engine(None);
    let row = engine.register(Candidate::with_instruction("draft", "x"));
    let plan = run_of(engine.evaluate_many(&lane(), &[row], Some(&[0, 0])));
    assert_eq!(plan.pending, vec![(row, 0)]);
    let fresh = answered(&plan, 0.5);
    let evals = engine.commit_many(&lane(), plan, fresh, 1);
    assert_eq!(evals.len(), 1);
    let examples: Vec<usize> = evals[0].rollouts.iter().map(|r| r.example).collect();
    assert_eq!(examples, vec![0, 0]);
    assert_eq!(evals[0].scores(), vec![score(0.5); 2]);
    assert_eq!(engine.spend().metric_calls, 1);
}

#[test]
fn a_batch_that_is_made_again_is_served_from_the_cache() {
    let mut engine = engine(None);
    let first = engine.register(Candidate::with_instruction("draft", "x"));
    let second = engine.register(Candidate::with_instruction("draft", "y"));
    let plan = run_of(engine.evaluate_many(&lane(), &[first, second], Some(&[2, 0, 2])));
    let fresh = answered(&plan, 0.25);
    let once = engine.commit_many(&lane(), plan, fresh, 2);
    let spent = *engine.spend();
    let plan = run_of(engine.evaluate_many(&lane(), &[first, second], Some(&[2, 0, 2])));
    assert!(plan.pending.is_empty());
    let again = engine.commit_many(&lane(), plan, vec![], 0);
    assert_eq!(again.len(), once.len());
    for (a, b) in once.iter().zip(&again) {
        assert_eq!(a.candidate, b.candidate);
        assert_eq!(a.scores(), b.scores());
        assert!(b.rollouts.iter().all(|r| r.trace.is_none()));
    }
    assert_eq!(engine.spend().cache_hits, spent.cache_hits + 4);
    assert_eq!(engine.spend().metric_calls, spent.metric_calls);
    assert_eq!(engine.spend().lm_calls, spent.lm_calls);
}

#[test]
fn batches_out_of_range_or_over_budget_are_refused() {
    let mut engine = engine(Some(2));
    let row = engine.register(Candidate::new());
    match engine.evaluate_many(&lane(), &[row + 1], None) {
        Err(err) => assert_eq!(err.message(), "candidate index 1 is not registered"),
        other => panic!("expected a refusal, got: {other:?}"),
    }
    match engine.evaluate_many(&lane(), &[row], Some(&[3])) {
        Err(err) => assert_eq!(err.message(), "example index 3 out of range (3 examples)"),
        other => panic!("expected a refusal, got: {other:?}"),
    }
    match engine.evaluate_many(&lane(), &[row], None) {
        Ok(BatchStep::BudgetExhausted { needed }) => assert_eq!(needed, 3),
        other => panic!("expected an exhausted budget, got: {other:?}"),
    }
    assert!(engine.budget_allows(2));
    engine.charge(1, 1);
    assert!(!engine.budget_allows(2));
}

#[test]
fn only_candidates_above_the_threshold_are_promoted() {
    let mut engine = engine(None);
    let row = engine.register(Candidate::new());
    let plan = run_of(engine.evaluate(&lane(), row, Some(&[1])));
    let fresh = answered(&plan, 0.5);
    let mut evals = engine.commit_many(&lane(), plan, fresh, 1);
    let minibatch = evals.remove(0);
    let minibatch = match engine.evaluate_gated(&lane(), row, minibatch, key(0.5), key(0.5)) {
        Ok(GateStep::Done(GateOutcome::Rejected { minibatch })) => minibatch,
        other => panic!("expected a rejection, got: {other:?}"),
    };
    match engine.evaluate_gated(&lane(), row, minibatch, key(0.5), key(0.4)) {
        Ok(GateStep::RunFull { plan, .. }) => {
            assert_eq!(plan.pending, vec![(row, 0), (row, 2)]);
            assert_eq!(plan.cached.len(), 1);
        }
        other => panic!("expected a full run, got: {other:?}"),
    }
}

#[test]
fn the_gauge_keeps_the_highest_number_of_candidates_in_flight() {
    let mut gauge = Gauge::new();
    gauge.enter(3);
    gauge.enter(3);
    gauge.enter(5);
    gauge.leave(3);
    gauge.leave(5);
    gauge.enter(4);
    assert_eq!(gauge.peak(), 2);
}

fn row(question: &str, answer: &str) -> DemoRow {
    DemoRow { input: demo(&[("question", question)]), output: demo(&[("answer", answer)]) }
}

#[test]
fn program_rollouts_are_cached_by_program_and_example() {
    let examples = vec![row("q1", "a1"), row("q2", "a2")];
    assert_ne!(example_uid(&examples[0]), example_uid(&examples[1]));
    let mut engine = ProgramEvalEngine::new(examples, EngineConfig::default());
    assert_eq!(engine.num_examples(), 2);
    let candidate = engine.register(Overlay { base: 9, hash: 1, id: 0 });
    let plan = run_of(engine.evaluate_program_candidates(9, &[candidate], None));
    let fresh = answered(&plan, 1.0);
    let evals = engine.commit(plan, fresh, 1);
    assert_eq!(evals[0].scores(), vec![score(1.0); 2]);
    let again = run_of(engine.evaluate(9, candidate, None));
    assert!(again.pending.is_empty());
    let other_program = run_of(engine.evaluate(10, candidate, None));
    assert_eq!(other_program.pending.len(), 2);
    assert_eq!(
        rollout_failure(2, 5, "boom"),
        "candidate 2 failed on example 5: boom"
    );
}

fn harvested_prompts(demos: &Vec<(String, Vec<JsonMap>)>, name: &str) -> Vec<String> {
    demos
        .iter()
        .find(|(n, _)| n == name)
        .map(|(_, rows)| rows.iter().map(|row| text_of(row, "prompt")).collect())
        .unwrap_or_default()
}

#[test]
fn without_span_evals_rollout_score_gates_every_span() {
    // Baseline behavior: no span evals anywhere, so the whole-rollout
    // score decides for every span — 0.0 rollouts contribute nothing.
    let good = trace(vec![
        span("draft", "q1", "a1", None),
        span("refine", "q1'", "a1'", None),
    ]);
    let bad = trace(vec![
        span("draft", "q2", "a2", None),
        span("refine", "q2'", "a2'", None),
    ]);

    let demos = select_demos(
        &collect_demo_candidates(&vec![(score(1.0), good), (score(0.0), bad)], key(1.0)),
        4,
    );
    assert_eq!(harvested_prompts(&demos, "draft"), vec!["q1"]);
    assert_eq!(harvested_prompts(&demos, "refine"), vec!["q1'"]);
}

#[test]
fn span_eval_overrides_rollout_score_in_both_directions() {
    // Winning rollout, but the metric scored the draft span 0.0 (a
    // misstep the refine step recovered from) — the draft is excluded.
    let recovered = trace(vec![
        span("draft", "q1", "wrong", Some(eval(0.0))),
        span("refine", "q1'", "right", None),
    ]);
    // Losing rollout, but the metric scored the draft span 1.0 — the
    // draft qualifies anyway.
    let salvaged = trace(vec![
        span("draft", "q2", "right", Some(eval(1.0))),
        span("refine", "q2'", "wrong", None),
    ]);

    let demos = select_demos(
        &collect_demo_candidates(
            &vec![(score(1.0), recovered), (score(0.0), salvaged)],
            key(1.0),
        ),
        4,
    );
    assert_eq!(harvested_prompts(&demos, "draft"), vec!["q2"]);
    assert_eq!(harvested_prompts(&demos, "refine"), vec!["q1'"]);
}

#[test]
fn span_eval_score_ranks_candidates() {
    // Both spans qualify; the span-scored one outranks the
    // rollout-scored one when only one demo slot is available.
    let modest = trace(vec![span("draft", "q1", "a1", None)]);
    let strong = trace(vec![span("draft", "q2", "a2", Some(eval(0.9)))]);

    let demos = select_demos(
        &collect_demo_candidates(
            &vec![(score(0.5), modest), (score(0.5), strong)],
            key(0.5),
        ),
        1,
    );
    assert_eq!(harvested_prompts(&demos, "draft"), vec!["q2"]);
}

#[test]
fn harvested_demos_are_capped_and_distinct() {
    let rollouts = vec![
        (score(1.0), trace(vec![span("draft", "q1", "a1", None)])),
        (score(1.0), trace(vec![span("draft", "q1", "other", None)])),
        (score(1.0), trace(vec![span("draft", "q2", "a2", None)])),
    ];
    let candidates = collect_demo_candidates(&rollouts, FULL_SCORE);
    assert_eq!(candidates.len(), 3);
    let two = select_demos(&candidates, 2);
    assert_eq!(harvested_prompts(&two, "draft"), vec!["q1", "q2"]);
    assert!(select_demos(&candidates, 0).is_empty());
}

#[test]
fn concat_mutation_caps_appended_feedback() {
    let huge = "x".repeat(50_000);
    let child = GEPA::concat_child_instruction("seed", &huge, "0.500", 3);
    assert!(child.len() < 3_000, "feedback must be capped: {}", child.len());
    assert!(child.starts_with("seed\n\n[GEPA gen 4]"));
}

fn qa_program(reasoning: bool) -> EditableProgram {
    let kinds = vec![
        EditKind::AugmentSig,
        EditKind::SwapToAgent,
        EditKind::WrapRetry,
        EditKind::Remove,
        EditKind::SetStop,
        EditKind::SetInstructionDefault,
    ];
    let mut field_names = vec!["question".to_string(), "answer".to_string()];
    if reasoning {
        field_names.push("reasoning".to_string());
    }
    EditableProgram {
        hash: 1,
        source: "structural_unit".to_string(),
        nodes: vec![EditableNode {
            node: 0,
            leaf: Some("answerer".to_string()),
            field_names,
            legal_edits: kinds
                .into_iter()
                .map(|kind| LegalEdit { kind, form: Json::Null })
                .collect(),
        }],
        tools: vec!["search".to_string()],
    }
}

#[test]
fn menu_excludes_free_text_kinds_and_taken_reasoning_fields() {
    let program = qa_program(false);
    let menu = StructuralSearch::menu(&program);
    assert!(!menu.is_empty());
    assert!(menu.iter().all(|entry| !matches!(
        entry.kind,
        EditKind::SetStop | EditKind::SetInstructionDefault
    )));
    assert!(menu
        .iter()
        .any(|entry| entry.kind == EditKind::AugmentSig && entry.leaf == "answerer"));

    // Once the reasoning field is on the leaf, AugmentSig leaves the menu.
    let child_menu = StructuralSearch::menu(&qa_program(true));
    assert!(child_menu
        .iter()
        .all(|entry| entry.kind != EditKind::AugmentSig));
}

#[test]
fn parse_choice_extracts_in_range_options() {
    assert_eq!(StructuralSearch::parse_choice("3", 5), Some(3));
    assert_eq!(StructuralSearch::parse_choice(" Option 2.", 5), Some(2));
    assert_eq!(StructuralSearch::parse_choice("option 12 of 20", 20), Some(12));
    assert_eq!(StructuralSearch::parse_choice("9", 5), None);
    assert_eq!(StructuralSearch::parse_choice("none of these", 5), None);
    assert_eq!(StructuralSearch::parse_choice("", 5), None);
}

#[test]
fn menu_entries_become_edits_of_their_kind() {
    let program = qa_program(false);
    let menu = StructuralSearch::menu(&program);
    assert_eq!(menu.len(), 4);
    for entry in menu.iter() {
        let edit = StructuralSearch::materialize(&program, entry);
        match entry.kind {
            EditKind::AugmentSig => assert!(matches!(edit, Edit::AugmentSig { leaf: 0 })),
            EditKind::SwapToAgent => {
                assert!(matches!(edit, Edit::SwapToAgent { leaf: 0, ref tools } if tools == &[0]))
            }
            EditKind::WrapRetry => assert!(matches!(
                edit,
                Edit::WrapRetry { node: 0, max_attempts: 2, .. }
            )),
            EditKind::Remove => assert!(matches!(edit, Edit::Remove { node: 0 })),
            other => panic!("unexpected entry: {other:?}"),
        }
    }
    let shown = StructuralSearch::render_menu(&program, &menu);
    assert!(shown.contains("answerer"));
}

fn facts(instruction: &str) -> PredictorFacts {
    PredictorFacts {
        instruction: instruction.to_string(),
        default_instruction: "default".to_string(),
        demos: vec![],
        input_fields: vec![("question".to_string(), "What is asked.".to_string())],
        output_fields: vec![("answer".to_string(), String::new())],
    }
}

#[test]
fn validation_examples_come_before_training_examples() {
    let state = vec![("self".to_string(), Json::Null)];
    let train = vec![Json::Str("t1".to_string()), Json::Str("t2".to_string())];
    let val = vec![Json::Str("v1".to_string())];
    let target = OptimizeTarget::module_with_valset(
        vec![("self".to_string(), facts("now"))],
        &state,
        &train,
        Some(&val),
    );
    assert_eq!(target.num_examples(), 3);
    assert!(target.has_valset());
    assert_eq!(target.val_columns(), vec![0]);
    assert_eq!(target.train_columns(), vec![1, 2]);
    assert_eq!(target.leaves()[0].instruction, "now");
    assert!(matches!(example_source(1, 0), ExampleSource::Validation(0)));
    assert!(matches!(example_source(1, 2), ExampleSource::Training(1)));

    let plain = OptimizeTarget::module(vec![("self".to_string(), facts("now"))], &state, &train);
    assert_eq!(plain.val_columns(), vec![0, 1]);
    assert_eq!(plain.train_columns(), vec![0, 1]);
    assert_eq!(plain.lane.uids[0], target.lane.uids[1]);
    assert_eq!(plain.lane.baseline, target.lane.baseline);
}

#[test]
fn reflection_sees_the_fields_of_a_leaf() {
    let leaf = LeafInfo::from_predictor("self", facts("now"));
    let shown = leaf.schema_for_reflection();
    assert!(shown.contains("question"));
    assert!(shown.contains("What is asked."));
    assert!(shown.contains("answer"));
}

fn json_of(value: &serde_json::Value) -> Json {
    match value {
        serde_json::Value::Null => Json::Null,
        serde_json::Value::Bool(b) => Json::Bool(*b),
        serde_json::Value::Number(n) => Json::Number(n.to_string()),
        serde_json::Value::String(s) => Json::Str(s.clone()),
        serde_json::Value::Array(items) => Json::Array(items.iter().map(json_of).collect()),
        serde_json::Value::Object(members) => {
            Json::Object(members.iter().map(|(name, value)| (name.clone(), json_of(value))).collect())
        }
    }
}

fn restored(text: &str) -> Option<Candidate> {
    let value: serde_json::Value = serde_json::from_str(text).unwrap();
    Candidate::from_json(&json_of(&value))
}

#[test]
fn candidate_round_trips_through_json() {
    let mut candidate = Candidate::new();
    candidate.set_instruction("drafter", "be brief");
    candidate.set_demos("drafter", vec![demo(&[("q", "one"), ("a", "1")])]);

    let json = json_string(&candidate.to_json());
    let restored = restored(&json).unwrap();
    assert_eq!(candidate.stable_hash(), restored.stable_hash());
    assert_eq!(restored.instruction_of("drafter"), Some("be brief"));
    assert_eq!(restored.demos_of("drafter").map(|rows| rows.len()), Some(1));
}

#[test]
fn what_is_no_candidate_is_not_read() {
    assert!(restored("{}").is_none());
    assert!(restored("{\"slots\": []}").is_none());
    assert!(restored("{\"slots\": {\"a\": {\"instruction\": 1}}}").is_none());
    assert!(restored("{\"slots\": {\"a\": {\"demos\": [1]}}}").is_none());
    let empty = restored("{\"slots\": {\"a\": {\"instruction\": null}}}").unwrap();
    assert_eq!(empty.slots.len(), 1);
    let cleared =
        restored("{\"slots\": {\"a\": {\"clear_instruction\": true, \"demos\": []}}}").unwrap();
    assert!(cleared.slots[0].1.clear_instruction);
    assert_eq!(cleared.demos_of("a").map(|rows| rows.len()), Some(0));
}

#[test]
fn a_slot_that_sets_and_clears_is_read_as_it_is_stored() {
    let both = restored(
        "{\"slots\": {\"a\": {\"instruction\": \"be brief\", \"clear_instruction\": true}}}",
    )
    .unwrap();
    assert_eq!(both.instruction_of("a"), Some("be brief"));
    assert!(both.slots[0].1.clear_instruction);
    let again = restored(&json_string(&both.to_json())).unwrap();
    assert_eq!(again.stable_hash(), both.stable_hash());
    let mut cleared = Candidate::new();
    cleared.clear_instruction("a");
    assert_ne!(cleared.stable_hash(), both.stable_hash());

    // Clearing wins where the candidate is put to use.
    let params = both.to_params();
    let slot = params.get("a").unwrap();
    assert!(slot.clear_instruction);
    assert_eq!(slot.instruction, None);
}

fn states() -> Vec<(String, PredictState)> {
    ["draft", "refine"]
        .into_iter()
        .map(|name| {
            let state = PredictState {
                instruction_override: Some("mine".to_string()),
                demos: vec![demo(&[("q", "one")])],
            };
            (name.to_string(), state)
        })
        .collect()
}

#[test]
fn winners_are_installed_on_predictors_that_exist() {
    let mut predictors = states();
    let winner = Candidate::with_instruction("refine", "x");
    OptimizeTarget::install(&mut predictors, &winner, &vec![None]).expect("installed");
    assert_eq!(predictors[1].1.instruction_override.as_deref(), Some("x"));
    assert_eq!(predictors[1].1.demos.len(), 1);
    // A predictor that no slot names stays as it is.
    assert_eq!(predictors[0].1.instruction_override.as_deref(), Some("mine"));
}

#[test]
fn installations_stop_at_the_first_slot_that_fails() {
    let mut winner = Candidate::with_instruction("draft", "x");
    winner.slots.extend(Candidate::with_instruction("polish", "y").slots);
    winner.slots.extend(Candidate::with_instruction("refine", "z").slots);
    let mut predictors = states();
    let missing = OptimizeTarget::install(&mut predictors, &winner, &vec![None, None, None])
        .expect_err("missing");
    assert_eq!(missing.message(), "predictor `polish` not found in the module");
    assert_eq!(predictors[0].1.instruction_override.as_deref(), Some("x"));
    assert_eq!(predictors[1].1.instruction_override.as_deref(), Some("mine"));

    let winner = Candidate::with_instruction("draft", "x");
    let refused = OptimizeTarget::install(&mut states(), &winner, &vec![Some("bad row".to_string())])
        .expect_err("refused");
    assert_eq!(refused.message(), "failed to install winner on `draft`: bad row");
}

struct Exact;

impl ProgramMetric for Exact {
    fn evaluate(
        &self,
        example: &DemoRow,
        output: &JsonMap,
        _trace: Option<&Trace>,
    ) -> Result<Eval, String> {
        if output.is_empty() {
            return Err("nothing to score".to_string());
        }
        let same = text_of(&example.output, "answer") == text_of(output, "answer");
        Ok(eval(if same { 1.0 } else { 0.0 }))
    }
}

#[test]
fn rollouts_of_programs_end_with_their_score() {
    let example = row("q", "a");
    let empty = || Trace { spans: vec![], outcome: None };
    let (scored, kept) =
        conclude_program_rollout(&Exact, &example, 4, Ok(demo(&[("answer", "a")])), empty())
            .expect("scored");
    assert_eq!(scored.score, score(1.0));
    assert_eq!(kept.outcome.map(|e| e.score), Some(score(1.0)));
    assert_eq!(
        conclude_program_rollout(&Exact, &example, 4, Ok(vec![]), empty()).expect_err("metric"),
        "nothing to score"
    );
    assert_eq!(
        conclude_program_rollout(&Exact, &example, 4, Err("boom".to_string()), empty())
            .expect_err("program"),
        "candidate failed on example 4: boom"
    );
}

#[test]
fn overlays_are_not_run_on_modules() {
    let overlay = CandidatePayload::Overlay(Overlay { base: 0, hash: 1, id: 0 });
    assert_eq!(
        bind_on_module(&overlay).expect_err("overlay"),
        "an ir::Overlay candidate cannot be evaluated on a module target; register a Candidate instead"
    );
}

#[test]
fn picks_follow_the_weights() {
    assert_eq!(pick(&vec![0, 2, 1], 0), 1);
    assert_eq!(pick(&vec![0, 2, 1], 1), 1);
    assert_eq!(pick(&vec![0, 2, 1], 2), 2);
    assert_eq!(best_index(&vec![key(0.1), key(0.7), key(0.3)]), 1);
}

fn instruction(text: &str) -> GEPACandidate {
    GEPACandidate {
        id: 0,
        instruction: text.to_string(),
        module_name: "self".to_string(),
        example_scores: vec![],
        average: key(0.0),
        parent_id: None,
        generation: 0,
    }
}

#[test]
fn the_frontier_keeps_candidates_that_win_somewhere() {
    let mut frontier = ParetoFrontier::new();
    assert!(frontier.is_empty());
    assert!(frontier.add_candidate(instruction("a"), &[score(0.9), score(0.1)]));
    assert!(frontier.add_candidate(instruction("b"), &[score(0.1), score(0.9)]));
    assert!(!frontier.add_candidate(instruction("c"), &[score(0.5), score(0.5)]));
    assert_eq!(frontier.len(), 2);
    let drawn = frontier.sample_proportional_to_coverage().expect("someone");
    assert!(drawn.instruction == "a" || drawn.instruction == "b");
    assert!(frontier.add_candidate(instruction("d"), &[score(1.0), score(1.0)]));
    assert_eq!(frontier.len(), 1);
    assert_eq!(frontier.candidates()[0].instruction, "d");
    let child = frontier.candidates()[0].mutate("e".to_string(), 3);
    assert_eq!(child.parent_id, Some(frontier.candidates()[0].id));
    assert_eq!(child.generation, 3);
}

#[test]
fn an_evaluation_lists_its_scores_in_order() {
    let done = CandidateEval { candidate: 0, rollouts: vec![] };
    assert!(done.scores().is_empty());
}

#[test]
fn slots_without_content_change_nothing() {
    let state = || PredictState {
        instruction_override: Some("mine".to_string()),
        demos: vec![demo(&[("q", "one")])],
    };
    let same = install_slot(state(), &CandidateSlot::default());
    assert_eq!(same.instruction_override.as_deref(), Some("mine"));
    assert_eq!(same.demos.len(), 1);
    let mut slot = CandidateSlot::default();
    slot.clear_instruction = true;
    slot.demos = Some(vec![]);
    let cleared = install_slot(state(), &slot);
    assert!(cleared.instruction_override.is_none());
    assert!(cleared.demos.is_empty());
}

#[test]
fn programs_are_targets_by_their_hash() {
    let nodes: Vec<ProgramNode> = vec![];
    let examples = vec![row("q1", "a1"), row("q2", "a2")];
    let target = OptimizeTarget::program(&nodes, 9, &examples);
    assert_eq!(target.lane.baseline, 9);
    assert_eq!(target.lane.uids[1], example_uid(&examples[1]));
    assert!(!target.has_valset());
    assert!(target.leaves().is_empty());
}
