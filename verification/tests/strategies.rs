//! Optimizers: what they ask for, and what they make of the answers.

use std::sync::Arc;

use dspy_rs::json::{Json, JsonMap};
use dspy_rs::optimizer::bootstrap::{
    BootstrapAction, BootstrapFewShot, BootstrapPhase, BootstrapRun,
};
use dspy_rs::optimizer::copro::{CoproAction, CoproRun, COPRO};
use dspy_rs::optimizer::flop::{
    FlopRun, Graph, ModifyNodeArgs, ModifyNodeTool, NodeType, SplitNodeTool, FLOP,
};
use dspy_rs::optimizer::flop_tools::{
    FieldDef, FuseArgs, FuseSignatureTool, JsonSignature, ModifyArgs, ModifySignatureTool,
};
use dspy_rs::optimizer::gepa::{GepaAction, GepaError, GepaPhase, GepaRun, GEPA};
use dspy_rs::optimizer::mipro::{MIPROv2, MiproAction, MiproRun, PromptingTips};
use dspy_rs::optimizer::report::Report;
use dspy_rs::optimizer::rollouts::{
    BatchPlan, CandidateEval, Engine, EngineConfig, FreshRollout, Lane, Overlay,
};
use dspy_rs::optimizer::simba::{draw_minibatch, SimbaAction, SimbaRun, SIMBA};
use dspy_rs::optimizer::structural::{
    EditKind, EditableNode, EditableProgram, LegalEdit, StructuralAction, StructuralError,
    StructuralPhase, StructuralRun, StructuralSearch,
};
use dspy_rs::optimizer::summary::summarize_feedback;
use dspy_rs::optimizer::target::LeafInfo;
use dspy_rs::optimizer::trial::Mean;
use dspy_rs::predictors::predict::Predict;
use dspy_rs::optimizer::OptimizerCommon;
use dspy_rs::trace::{Eval, LmUsage, Score, Span, Trace};

fn key(n: f64) -> i64 {
    n.to_bits() as i64
}

fn score(n: f64) -> Score {
    Score { key: key(n), reach: key(n + 1e-6) }
}

fn mean(n: f64) -> Mean {
    Mean { key: key(n), text: format!("{n:.3}") }
}

fn eval(n: f64, feedback: Option<&str>) -> Eval {
    Eval {
        score: score(n),
        score_text: format!("{n:.3}"),
        feedback: feedback.map(|f| f.to_string()),
    }
}

fn row(pairs: &[(&str, &str)]) -> JsonMap {
    pairs.iter().map(|(k, v)| (k.to_string(), Json::Str(v.to_string()))).collect()
}

fn leaf(name: &str) -> LeafInfo {
    LeafInfo {
        name: name.to_string(),
        instruction: "seed".to_string(),
        default_instruction: "seed".to_string(),
        demos: vec![],
        input_fields: vec![("prompt".to_string(), String::new())],
        output_fields: vec![("answer".to_string(), "The answer.".to_string())],
    }
}

fn lane(examples: usize) -> Lane {
    Lane { baseline: 1, uids: (0..examples as u64).map(|i| 100 + i).collect() }
}

fn trace(component: &str, input: &str) -> Arc<Trace> {
    Arc::new(Trace {
        spans: vec![Span {
            component: component.to_string(),
            seq: 0,
            usage: LmUsage::default(),
            input: Some(row(&[("prompt", input)])),
            output: Some(row(&[("answer", "a")])),
            error: None,
            raw_output: None,
            events: vec![],
            eval: None,
            complete: true,
        }],
        outcome: None,
    })
}

/// Runs a batch on a metric that gives every example the same score and feedback.
fn commit(
    engine: &mut Engine,
    lane: &Lane,
    plan: BatchPlan,
    n: f64,
    feedback: Option<&str>,
) -> CandidateEval {
    let fresh = plan
        .pending
        .iter()
        .map(|(candidate, example)| FreshRollout {
            candidate: *candidate,
            example: *example,
            eval: eval(n, feedback),
            trace: trace("self", &format!("q{example}")),
        })
        .collect();
    engine.commit_many(lane, plan, fresh, 1).remove(0)
}

#[test]
fn copro_keeps_the_best_instruction_of_every_round() {
    let config = COPRO { breadth: 2, depth: 1, track_stats: false, eval_concurrency: 1 };
    let mut engine = Engine::new(config.engine_config());
    let lane = lane(2);
    let mut run = CoproRun::new(config, vec![leaf("self")]).expect("ready");
    let mut scores = vec![0.9, 0.2].into_iter();
    let mut tried = 0;
    loop {
        match run.next_trial(&mut engine, &lane).expect("trial") {
            CoproAction::Evaluate { plan } => {
                let n = scores.next().unwrap_or(0.1);
                commit(&mut engine, &lane, plan, n, None);
                run.on_evaluated(key(n));
                tried += 1;
            }
            CoproAction::Next => {}
            CoproAction::Install { winner } => {
                let best = winner.instruction_of("self").expect("an instruction");
                assert_eq!(engine.candidate(0).and_then(|c| c.instruction_of("self")), Some(best));
                break;
            }
        }
    }
    assert_eq!(tried, 2);
}

#[test]
fn copro_refuses_what_it_cannot_run() {
    let narrow = COPRO { breadth: 1, ..COPRO::default() };
    assert_eq!(
        CoproRun::new(narrow, vec![leaf("self")]).map(|_| ()).map_err(|e| e.message()),
        Err("breadth must be greater than 1".to_string())
    );
    assert_eq!(
        CoproRun::new(COPRO::default(), vec![]).map(|_| ()).map_err(|e| e.message()),
        Err("no optimizable predictors found".to_string())
    );
}

#[test]
fn copro_varies_the_instruction() {
    let options = COPRO { breadth: 4, ..COPRO::default() }
        .candidate_instructions("Answer.", &leaf("self"), 0);
    assert_eq!(options.len(), 4);
    assert_eq!(options[0], "Answer.");
    assert!(options.iter().any(|o| o.contains("answer")));
}

#[test]
fn bootstrap_adopts_demos_that_help() {
    let config = BootstrapFewShot { min_demo_score: key(0.5), ..BootstrapFewShot::default() };
    let mut engine = Engine::new(config.engine_config());
    let lane = lane(2);
    let mut run = BootstrapRun::new(config, &vec![leaf("self")]).expect("ready");
    let plan = match run.start(&mut engine, &lane).expect("teacher") {
        BootstrapAction::Evaluate { plan } => plan,
        other => panic!("unexpected action: {other:?}"),
    };
    let taught = commit(&mut engine, &lane, plan, 0.5, None);
    let plan = match run
        .on_teacher_evaluated(&mut engine, &lane, &taught, key(0.5))
        .expect("trial")
    {
        BootstrapAction::Evaluate { plan } => plan,
        other => panic!("unexpected action: {other:?}"),
    };
    commit(&mut engine, &lane, plan, 1.0, None);
    match run.on_candidate_evaluated(&engine, key(1.0)) {
        BootstrapAction::Finish { report, winner } => {
            assert!(report.adopted);
            assert_eq!(report.demos_per_predictor, vec![("self".to_string(), 2)]);
            assert_eq!(report.spend.metric_calls, 4);
            assert_eq!(winner.and_then(|w| w.demos_of("self").map(|d| d.len())), Some(2));
        }
        other => panic!("unexpected action: {other:?}"),
    }
}

#[test]
fn bootstrap_without_good_rollouts_changes_nothing() {
    let config = BootstrapFewShot::default();
    let mut engine = Engine::new(config.engine_config());
    let lane = lane(1);
    let mut run = BootstrapRun::new(config, &vec![leaf("self")]).expect("ready");
    let plan = match run.start(&mut engine, &lane).expect("teacher") {
        BootstrapAction::Evaluate { plan } => plan,
        other => panic!("unexpected action: {other:?}"),
    };
    let taught = commit(&mut engine, &lane, plan, 0.5, None);
    match run.on_teacher_evaluated(&mut engine, &lane, &taught, key(0.5)).expect("end") {
        BootstrapAction::Finish { report, winner } => {
            assert!(!report.adopted);
            assert_eq!(report.candidate_score, None);
            assert!(winner.is_none());
        }
        other => panic!("unexpected action: {other:?}"),
    }
    let small = BootstrapFewShot { max_metric_calls: Some(0), ..BootstrapFewShot::default() };
    let mut engine = Engine::new(small.engine_config());
    let mut run = BootstrapRun::new(small, &vec![leaf("self")]).expect("ready");
    assert_eq!(
        run.start(&mut engine, &lane).map(|_| ()).map_err(|e| e.message()),
        Err("budget too small for the teacher pass (1 rollouts needed)".to_string())
    );
}

#[test]
fn mipro_teaches_and_then_tries_instructions() {
    let config = MIPROv2 { num_candidates: 2, num_trials: 2, seed: Some(7), ..MIPROv2::default() };
    let mut engine = Engine::new(config.engine_config());
    let lane = lane(3);
    let mut rng = OptimizerCommon { seed: Some(7), ..OptimizerCommon::default() }.rng();
    let mut run = MiproRun::new(config, vec![leaf("self")], 3).expect("ready");
    let plan = match run.start(&mut engine, &lane).expect("teacher") {
        MiproAction::Evaluate { plan } => plan,
        other => panic!("unexpected action: {other:?}"),
    };
    let taught = commit(&mut engine, &lane, plan, 1.0, None);
    let mut action = run.on_teacher_evaluated(&taught);
    let mut trials = 0;
    let winner = loop {
        action = match action {
            MiproAction::Draw => run.next_predictor(&mut rng).expect("drawn"),
            MiproAction::Next => run.next_trial(&mut engine, &lane).expect("trial"),
            MiproAction::Evaluate { plan } => {
                trials += 1;
                commit(&mut engine, &lane, plan, 0.5, None);
                run.on_evaluated(key(0.5))
            }
            MiproAction::Install { winner } => break winner,
        };
    };
    assert!(trials > 0);
    assert!(winner.instruction_of("self").is_some());
}

#[test]
fn prompting_tips_are_numbered() {
    let tips = PromptingTips::default_tips();
    assert_eq!(tips.tips.len(), 15);
    let shown = tips.format_for_prompt();
    assert!(shown.starts_with("1. Use clear and specific language"));
    assert!(shown.contains("15. Use delimiters"));
}

fn gepa_config() -> GEPA {
    GEPA { num_iterations: 1, minibatch_size: 2, seed: Some(3), ..GEPA::default() }
}

#[test]
fn gepa_improves_from_feedback_and_installs_the_best() {
    let config = gepa_config();
    let mut engine = Engine::new(config.engine_config());
    let lane = lane(2);
    let mut rng = OptimizerCommon { seed: Some(3), ..OptimizerCommon::default() }.rng();
    let mut run = GepaRun::new(config, vec![leaf("self")], vec![0, 1], vec![0, 1]).expect("ready");
    let mut action = run.seed(&mut engine, &lane, 0).expect("seed");
    let plan = match action {
        GepaAction::Evaluate { plan } => plan,
        other => panic!("unexpected action: {other:?}"),
    };
    let seeded = commit(&mut engine, &lane, plan, 0.25, Some("too short"));
    action = run.on_seed_evaluated(&mut engine, &lane, &seeded, key(0.25)).expect("seeded");
    assert!(matches!(action, GepaAction::Draw));
    let plan = match run.next_generation(&mut engine, &lane, &mut rng).expect("parent") {
        GepaAction::Evaluate { plan } => plan,
        other => panic!("unexpected action: {other:?}"),
    };
    let parent = commit(&mut engine, &lane, plan, 0.25, Some("too short"));
    let plan = match run
        .on_parent_evaluated(&mut engine, &lane, &parent, mean(0.25))
        .expect("child")
    {
        GepaAction::Evaluate { plan } => plan,
        other => panic!("unexpected action: {other:?}"),
    };
    let child = commit(&mut engine, &lane, plan, 0.75, Some("good"));
    run.on_child_evaluated(&engine, &child, key(0.75)).expect("kept");
    match run.next_generation(&mut engine, &lane, &mut rng).expect("end") {
        GepaAction::Install { winner } => {
            let text = winner.instruction_of("self").expect("an instruction");
            assert!(text.starts_with("seed\n\n[GEPA gen 1]"));
            assert!(text.contains("too short"));
        }
        other => panic!("unexpected action: {other:?}"),
    }
    let result = run.report(&engine, None);
    assert_eq!(result.best_candidate.average, key(0.75));
    assert_eq!(
        result.all_candidates.iter().map(|c| c.generation).collect::<Vec<_>>(),
        vec![0, 1]
    );
    assert_eq!(result.evolution_history, vec![(0, key(0.75))]);
    assert_eq!(result.best_candidate.generation, 1);
}

#[test]
fn gepa_needs_feedback_for_every_example() {
    let config = gepa_config();
    let mut engine = Engine::new(config.engine_config());
    let lane = lane(1);
    let mut run = GepaRun::new(config, vec![leaf("self")], vec![0], vec![0]).expect("ready");
    let plan = match run.seed(&mut engine, &lane, 0).expect("seed") {
        GepaAction::Evaluate { plan } => plan,
        other => panic!("unexpected action: {other:?}"),
    };
    let seeded = commit(&mut engine, &lane, plan, 0.5, None);
    match run.on_seed_evaluated(&mut engine, &lane, &seeded, key(0.5)) {
        Err(err) => {
            assert!(matches!(err, GepaError::FeedbackMissing { .. }));
            assert!(err.message().starts_with("GEPA requires feedback for every evaluated example"));
        }
        other => panic!("unexpected end: {other:?}"),
    }
    assert!(matches!(
        GepaRun::new(gepa_config(), vec![], vec![], vec![]),
        Err(GepaError::NoPredictors)
    ));
}

#[test]
fn simba_keeps_children_that_do_better() {
    let config = SIMBA { max_steps: 1, minibatch_size: 2, seed: Some(5), ..SIMBA::default() };
    let mut engine = Engine::new(config.engine_config());
    let lane = lane(2);
    let mut rng = OptimizerCommon { seed: Some(5), ..OptimizerCommon::default() }.rng();
    let mut run = SimbaRun::new(config, vec![leaf("self")], 2).expect("ready");
    let plan = match run.start(&mut engine, &lane).expect("baseline") {
        SimbaAction::Evaluate { plan } => plan,
        other => panic!("unexpected action: {other:?}"),
    };
    let fresh = plan
        .pending
        .iter()
        .map(|(candidate, example)| FreshRollout {
            candidate: *candidate,
            example: *example,
            eval: eval(if *example == 0 { 1.0 } else { 0.0 }, None),
            trace: trace("self", &format!("q{example}")),
        })
        .collect();
    let baseline = engine.commit_many(&lane, plan, fresh, 1).remove(0);
    let mut action = run.on_baseline_evaluated(&baseline, mean(0.5));
    let winner = loop {
        action = match action {
            SimbaAction::Draw => run.next_step(&engine, &mut rng),
            SimbaAction::Average { scores } => {
                assert_eq!(scores.len(), 2);
                run.on_average(&mut engine, &lane, mean(0.5)).expect("child")
            }
            SimbaAction::Evaluate { plan } => {
                let all = plan.pending.len() == 2;
                let child = commit(&mut engine, &lane, plan, 1.0, None);
                assert!(all);
                run.on_minibatch_evaluated(&engine, &lane, child, mean(1.0)).expect("gate")
            }
            SimbaAction::Introspect { prompt } => {
                panic!("no reflection was asked for: {prompt:?}")
            }
            SimbaAction::Finish { winner } => break winner,
        };
        if let SimbaAction::Evaluate { plan } = action {
            if plan.pending.is_empty() {
                let full = engine.commit_many(&lane, plan, vec![], 0).remove(0);
                action = run.on_full_evaluated(&full, mean(1.0));
            } else {
                action = SimbaAction::Evaluate { plan };
            }
        }
    };
    let winner = winner.expect("the child was kept");
    assert_eq!(winner.demos_of("self").map(|d| d.len()), Some(1));
    let report = run.report(&engine);
    assert_eq!(report.accepted, 1);
    assert_eq!(report.rejected, 0);
    assert_eq!(report.final_score.key, key(1.0));
    assert!(Report::Simba(report).into_simba().is_some());
}

#[test]
fn simba_without_steps_needs_no_examples() {
    let config = SIMBA { max_steps: 0, ..SIMBA::default() };
    let mut engine = Engine::new(config.engine_config());
    let mut rng = OptimizerCommon::default().rng();
    let lane = lane(0);
    let mut run = SimbaRun::new(config, vec![leaf("self")], 0).expect("ready");
    let plan = match run.start(&mut engine, &lane).expect("baseline") {
        SimbaAction::Evaluate { plan } => plan,
        other => panic!("unexpected action: {other:?}"),
    };
    let baseline = engine.commit_many(&lane, plan, vec![], 0).remove(0);
    assert!(matches!(run.on_baseline_evaluated(&baseline, mean(0.0)), SimbaAction::Draw));
    match run.next_step(&engine, &mut rng) {
        SimbaAction::Finish { winner } => assert!(winner.is_none()),
        other => panic!("unexpected action: {other:?}"),
    }
    assert_eq!(run.report(&engine).final_score.key, key(0.0));
}

#[test]
fn minibatches_are_distinct_examples() {
    let mut rng = OptimizerCommon { seed: Some(11), ..OptimizerCommon::default() }.rng();
    let mut drawn = draw_minibatch(&mut rng, 10, 4);
    assert_eq!(drawn.len(), 4);
    drawn.sort();
    drawn.dedup();
    assert_eq!(drawn.len(), 4);
    assert!(drawn.iter().all(|i| *i < 10));
    assert_eq!(draw_minibatch(&mut rng, 3, 8).len(), 3);
    let mut other = OptimizerCommon { seed: Some(12), ..OptimizerCommon::default() }.rng();
    let mut same = OptimizerCommon { seed: Some(11), ..OptimizerCommon::default() }.rng();
    let mut again = OptimizerCommon { seed: Some(11), ..OptimizerCommon::default() }.rng();
    assert_eq!(draw_minibatch(&mut same, 50, 9), draw_minibatch(&mut again, 50, 9));
    assert_eq!(draw_minibatch(&mut other, 50, 9).len(), 9);
    let mut unseeded = OptimizerCommon::default().rng();
    assert_eq!(draw_minibatch(&mut unseeded, 50, 9).len(), 9);
}

fn program(hash: u64) -> EditableProgram {
    EditableProgram {
        hash,
        source: "program".to_string(),
        nodes: vec![EditableNode {
            node: 0,
            leaf: Some("self".to_string()),
            field_names: vec!["prompt".to_string()],
            legal_edits: vec![LegalEdit { kind: EditKind::AugmentSig, form: Json::Null }],
        }],
        tools: vec![],
    }
}

fn overlay(base: u64, id: usize) -> Overlay {
    Overlay { base, hash: base * 10 + id as u64, id }
}

#[test]
fn structural_edits_are_kept_when_they_help() {
    let config = StructuralSearch {
        num_iterations: 1,
        minibatch_size: 2,
        seed: Some(9),
        ..StructuralSearch::default()
    };
    let mut engine = Engine::new(config.engine_config());
    let parent_lane = lane(2);
    let mut rng = OptimizerCommon { seed: Some(9), ..OptimizerCommon::default() }.rng();
    let mut run =
        StructuralRun::new(config, program(1), overlay(1, 0), 2).expect("ready");
    let plan = match run.start(&mut engine, &parent_lane).expect("baseline") {
        StructuralAction::Evaluate { plan } => plan,
        other => panic!("unexpected action: {other:?}"),
    };
    let baseline = commit(&mut engine, &parent_lane, plan, 0.25, Some("weak"));
    let mut action = run.on_baseline_evaluated(&baseline, mean(0.25));
    assert!(matches!(action, StructuralAction::Draw));
    action = run.next_generation(&engine, &parent_lane, &mut rng).expect("incumbent");
    if let StructuralAction::Evaluate { plan } = action {
        commit(&mut engine, &parent_lane, plan, 0.25, Some("weak"));
        action = run.on_incumbent_evaluated(&mut engine, mean(0.25), &mut rng);
    }
    match action {
        StructuralAction::Apply { .. } => {}
        other => panic!("unexpected action: {other:?}"),
    }
    let child_lane = Lane { baseline: 2, uids: parent_lane.uids.clone() };
    let plan = match run
        .on_child_loaded(&mut engine, &child_lane, program(2), overlay(2, 1))
        .expect("child")
    {
        StructuralAction::Evaluate { plan } => plan,
        other => panic!("unexpected action: {other:?}"),
    };
    let child = commit(&mut engine, &child_lane, plan, 0.75, Some("better"));
    let plan = match run
        .on_minibatch_evaluated(&engine, &child_lane, child, mean(0.75))
        .expect("gate")
    {
        StructuralAction::Evaluate { plan } => plan,
        other => panic!("unexpected action: {other:?}"),
    };
    let full = commit(&mut engine, &child_lane, plan, 0.75, Some("better"));
    run.on_full_evaluated(&full, mean(0.75));
    assert!(matches!(
        run.next_generation(&engine, &child_lane, &mut rng),
        Ok(StructuralAction::Finish)
    ));
    let report = run.report(&engine);
    assert_eq!(report.accepted, 1);
    assert_eq!(report.program.hash, 2);
    assert_eq!(report.final_score.key, key(0.75));
    assert_eq!(report.edits.len(), 1);
}

#[test]
fn structural_runs_need_examples_and_a_fitting_overlay() {
    assert!(matches!(
        StructuralRun::new(StructuralSearch::default(), program(1), overlay(1, 0), 0),
        Err(StructuralError::NoExamples)
    ));
    match StructuralRun::new(StructuralSearch::default(), program(1), overlay(2, 0), 2) {
        Err(err) => assert!(err.message().starts_with("overlay minted against program")),
        Ok(_) => panic!("the overlay does not fit"),
    }
}

#[test]
fn rejected_edits_are_recorded_with_their_reason() {
    let config = StructuralSearch { num_iterations: 1, ..StructuralSearch::default() };
    let mut engine = Engine::new(config.engine_config());
    let lane = lane(1);
    let mut rng = OptimizerCommon { seed: Some(1), ..OptimizerCommon::default() }.rng();
    let mut run = StructuralRun::new(config, program(1), overlay(1, 0), 1).expect("ready");
    let plan = match run.start(&mut engine, &lane).expect("baseline") {
        StructuralAction::Evaluate { plan } => plan,
        other => panic!("unexpected action: {other:?}"),
    };
    let baseline = commit(&mut engine, &lane, plan, 0.25, None);
    run.on_baseline_evaluated(&baseline, mean(0.25));
    let action = run.next_generation(&engine, &lane, &mut rng).expect("incumbent");
    if let StructuralAction::Evaluate { plan } = action {
        commit(&mut engine, &lane, plan, 0.25, None);
        run.on_incumbent_evaluated(&mut engine, mean(0.25), &mut rng);
    }
    run.on_edit_failed("edit", "orphaned output");
    assert_eq!(run.accepted, 0);
    assert_eq!(run.program.hash, 1);
    assert_eq!(run.incumbent.hash, overlay(1, 0).hash);
    assert_eq!(run.rejected, 1);
    assert_eq!(run.steps.len(), 1);
    assert!(run.steps[0]
        .rejection
        .as_deref()
        .map(|r| r.contains("orphaned output"))
        .unwrap_or(false));
}

#[test]
fn runs_that_cannot_begin_are_as_they_were() {
    let lane = lane(2);

    let config = StructuralSearch { max_rollouts: Some(1), ..StructuralSearch::default() };
    let mut engine = Engine::new(config.engine_config());
    let mut structural = StructuralRun::new(config, program(1), overlay(1, 0), 2).expect("ready");
    assert!(matches!(
        structural.start(&mut engine, &lane),
        Err(StructuralError::BudgetTooSmall { needed: 2 })
    ));
    assert_eq!(structural.program.hash, 1);
    assert_eq!((structural.generation, structural.steps.len(), structural.accepted), (0, 0, 0));
    assert!(matches!(structural.phase, StructuralPhase::Fresh));

    let config = BootstrapFewShot { max_metric_calls: Some(1), ..BootstrapFewShot::default() };
    let mut engine = Engine::new(config.engine_config());
    let mut bootstrap = BootstrapRun::new(config, &vec![leaf("self")]).expect("ready");
    assert!(bootstrap.start(&mut engine, &lane).is_err());
    assert!(bootstrap.demos_per_predictor.is_empty());
    assert!(matches!(bootstrap.phase, BootstrapPhase::Fresh));

    let config = SIMBA { max_metric_calls: Some(1), ..SIMBA::default() };
    let mut engine = Engine::new(config.engine_config());
    let mut simba = SimbaRun::new(config, vec![leaf("self")], 2).expect("ready");
    assert!(simba.start(&mut engine, &lane).is_err());
    assert_eq!(simba.accepted, 0);
    assert!(simba.current.is_empty());
}

#[test]
fn a_child_without_feedback_leaves_the_run_as_it_was() {
    let config = GEPA { num_iterations: 1, ..gepa_config() };
    let mut engine = Engine::new(config.engine_config());
    let lane = lane(1);
    let mut rng = OptimizerCommon { seed: Some(2), ..OptimizerCommon::default() }.rng();
    let mut run = GepaRun::new(config, vec![leaf("self")], vec![0], vec![0]).expect("ready");
    let mut action = run.seed(&mut engine, &lane, 0).expect("seed");
    if let GepaAction::Evaluate { plan } = action {
        let seeded = commit(&mut engine, &lane, plan, 0.5, Some("ok"));
        action = run.on_seed_evaluated(&mut engine, &lane, &seeded, key(0.5)).expect("seeded");
    }
    assert!(matches!(action, GepaAction::Draw));
    let plan = match run.next_generation(&mut engine, &lane, &mut rng).expect("parent") {
        GepaAction::Evaluate { plan } => plan,
        other => panic!("unexpected action: {other:?}"),
    };
    let parent = commit(&mut engine, &lane, plan, 0.5, Some("ok"));
    let plan = match run
        .on_parent_evaluated(&mut engine, &lane, &parent, mean(0.5))
        .expect("child")
    {
        GepaAction::Evaluate { plan } => plan,
        other => panic!("unexpected action: {other:?}"),
    };
    let child = commit(&mut engine, &lane, plan, 0.75, None);
    match run.on_child_evaluated(&engine, &child, key(0.75)) {
        Err(GepaError::FeedbackMissing { module_name, generation }) => {
            assert_eq!((module_name.as_str(), generation), ("self", 1));
        }
        other => panic!("unexpected end: {other:?}"),
    }
    assert_eq!(run.generation, 0);
    assert_eq!(run.lineage.entries.len(), 1);
    assert!(matches!(run.phase, GepaPhase::Child { .. }));
}

#[test]
fn feedback_is_summarized_by_example() {
    let mut engine = Engine::new(EngineConfig::default());
    let lane = lane(1);
    let candidate = dspy_rs::optimizer::engine::Candidate::new();
    let at = engine.register(candidate);
    let plan = match engine.evaluate(&lane, at, None) {
        Ok(dspy_rs::optimizer::rollouts::BatchStep::Run(plan)) => plan,
        other => panic!("unexpected step: {other:?}"),
    };
    let done = commit(&mut engine, &lane, plan, 0.5, Some("too long"));
    let shown = summarize_feedback("self", &done);
    assert!(shown.contains("0.500"));
    assert!(shown.contains("too long"));
}

#[test]
fn flop_steps_until_the_status_says_done() {
    let flop = FLOP::new("Answer questions.".to_string());
    assert!(flop.check_trainset(1).is_ok());
    assert_eq!(
        flop.check_trainset(0),
        Err("FLOP requires at least one example in trainset to trace execution".to_string())
    );
    let mut run = FlopRun::begin(&flop, "plan".to_string());
    let request = run.next_request("graph".to_string()).expect("first step");
    assert_eq!(request.history, "No actions taken yet.");
    // A first step on a graph that is still small does not end the work.
    run.replied("look", "DONE", 2);
    assert!(!run.done);
    let request = run.next_request("graph".to_string()).expect("second step");
    assert_eq!(request.history, "Step 1: Thought: look | Status: DONE");
    run.replied("split", "DONE", 2);
    assert!(run.done);
    assert!(run.next_request("graph".to_string()).is_none());
}

fn signature() -> JsonSignature {
    JsonSignature {
        instruction: "Answer.".to_string(),
        inputs: Json::Object(vec![]),
        outputs: Json::Object(vec![]),
        demos: vec![],
    }
}

#[test]
fn graph_tools_check_their_node() {
    let mut graph = Graph {
        nodes: vec![
            NodeType::Predict { signature: signature(), signature_name: "QA".to_string() },
            NodeType::Other,
        ],
    };
    assert_eq!(graph.predict_count(), 1);
    let args = |node_id: usize| ModifyNodeArgs {
        node_id,
        new_instruction: Some("Answer briefly.".to_string()),
        add_inputs: Some(vec![FieldDef {
            name: "context".to_string(),
            desc: "Where to look.".to_string(),
            kind_name: "String".to_string(),
        }]),
        add_outputs: None,
        remove_fields: None,
    };
    assert_eq!(
        ModifyNodeTool.request(&graph, args(5)).map(|_| ()).map_err(|e| e.message()),
        Err("Tool error: Node 5 not found".to_string())
    );
    assert_eq!(
        ModifyNodeTool.request(&graph, args(1)).map(|_| ()).map_err(|e| e.message()),
        Err("Tool error: Node 1 is not a Predict node".to_string())
    );
    let change = ModifyNodeTool.request(&graph, args(0)).expect("a change");
    assert_eq!(change.instruction.as_deref(), Some("Answer briefly."));
    assert_eq!(change.add_inputs.map(|m| m.len()), Some(1));
    assert_eq!(
        ModifyNodeTool.apply(&mut graph, 0, signature()),
        "Successfully modified node 0"
    );
    assert!(matches!(
        &graph.nodes[0],
        NodeType::Predict { signature_name, .. } if signature_name == "QA_modified"
    ));
    assert_eq!(
        SplitNodeTool.reply(0, Ok(vec![2, 3])).expect("split"),
        "Successfully split node 0 into nodes [2, 3]"
    );
    assert_eq!(SplitNodeTool.definition().name, "split_node");
}

#[test]
fn fusing_needs_signatures() {
    let none = FuseArgs { signatures: vec![], merged_name: "m".to_string() };
    assert!(FuseSignatureTool.check(&none).is_err());
    let mut grown = signature();
    grown.append("hint".to_string(), Json::Null);
    grown.update_instruction("Answer now.".to_string());
    assert_eq!(grown.instruction, "Answer now.");
    let two = FuseArgs {
        signatures: vec!["a".to_string(), "b".to_string()],
        merged_name: "m".to_string(),
    };
    assert!(FuseSignatureTool.check(&two).is_ok());
    assert_eq!(FuseSignatureTool.merged_instruction(&two, &grown), "m: Answer now.");
    let change = ModifySignatureTool.modification(ModifyArgs {
        signature: "a".to_string(),
        new_instruction: None,
        add_inputs: Some(vec![]),
        add_outputs: None,
        remove_fields: Some(vec!["x".to_string()]),
    });
    assert!(change.instruction.is_none());
    assert!(change.add_inputs.is_none());
    assert_eq!(change.remove_fields, Some(vec!["x".to_string()]));
}

#[test]
fn reports_are_of_one_kind() {
    assert!(Report::Nothing.into_gepa().is_none());
    assert!(Report::Custom(Json::Null).into_bootstrap().is_none());
}

#[test]
fn admitted_batches_stay_within_the_caps() {
    let config = SIMBA { max_metric_calls: Some(2), ..SIMBA::default() };
    let mut engine = Engine::new(config.engine_config());
    let lane = lane(3);
    let at = engine.register(dspy_rs::optimizer::engine::Candidate::new());
    let plan = match engine.evaluate(&lane, at, Some(&[0, 1])) {
        Ok(dspy_rs::optimizer::rollouts::BatchStep::Run(plan)) => plan,
        other => panic!("unexpected step: {other:?}"),
    };
    commit(&mut engine, &lane, plan, 0.5, None);
    assert_eq!(engine.spend().metric_calls, 2);
    assert!(matches!(
        engine.evaluate(&lane, at, None),
        Ok(dspy_rs::optimizer::rollouts::BatchStep::BudgetExhausted { needed: 1 })
    ));
    assert!(matches!(
        engine.evaluate(&lane, at, Some(&[1])),
        Ok(dspy_rs::optimizer::rollouts::BatchStep::Run(_))
    ));
}

/// A metric that cannot score anything.
fn always_fail(plan: BatchPlan) -> Result<CandidateEval, String> {
    assert!(!plan.pending.is_empty());
    Err("metric failure".to_string())
}

fn seeded_predictor() -> Predict {
    Predict::builder()
        .instruction("seed-instruction".to_string())
        .build("StateSig".to_string(), String::new())
}

fn leaf_of(predictor: &Predict) -> LeafInfo {
    LeafInfo { instruction: predictor.instruction(), ..leaf("predictor") }
}

#[test]
fn copro_compile_leaves_state_untouched_when_metric_errors() {
    let config = COPRO { breadth: 2, depth: 1, ..COPRO::default() };
    let predictor = seeded_predictor();
    let mut engine = Engine::new(config.engine_config());
    let run = CoproRun::new(config, vec![leaf_of(&predictor)]).expect("ready");
    let err = match run.next_trial(&mut engine, &lane(1)).expect("trial") {
        CoproAction::Evaluate { plan } => always_fail(plan)
            .expect_err("candidate scoring should propagate metric failure"),
        other => panic!("unexpected action: {other:?}"),
    };
    assert!(err.contains("metric failure"));
    assert_eq!(predictor.instruction(), "seed-instruction");
    assert_eq!(engine.spend().metric_calls, 0);
}

#[test]
fn gepa_compile_leaves_state_untouched_when_metric_errors() {
    let config = GEPA { num_iterations: 1, minibatch_size: 1, ..GEPA::default() };
    let predictor = seeded_predictor();
    let mut engine = Engine::new(config.engine_config());
    let mut run =
        GepaRun::new(config, vec![leaf_of(&predictor)], vec![0], vec![0]).expect("ready");
    let err = match run.seed(&mut engine, &lane(1), 0).expect("seed") {
        GepaAction::Evaluate { plan } => always_fail(plan)
            .expect_err("candidate evaluation should propagate metric failure"),
        other => panic!("unexpected action: {other:?}"),
    };
    assert!(err.contains("metric failure"));
    assert_eq!(predictor.instruction(), "seed-instruction");
    assert_eq!(engine.spend().metric_calls, 0);
}

#[test]
fn mipro_compile_leaves_state_untouched_when_metric_errors() {
    let config = MIPROv2 { num_candidates: 2, num_trials: 1, minibatch_size: 1, ..MIPROv2::default() };
    let predictor = seeded_predictor();
    let mut engine = Engine::new(config.engine_config());
    let mut run = MiproRun::new(config, vec![leaf_of(&predictor)], 1).expect("ready");
    let err = match run.start(&mut engine, &lane(1)).expect("teacher") {
        MiproAction::Evaluate { plan } => always_fail(plan)
            .expect_err("candidate evaluation should propagate metric failure"),
        other => panic!("unexpected action: {other:?}"),
    };
    assert!(err.contains("metric failure"));
    assert_eq!(predictor.instruction(), "seed-instruction");
    assert_eq!(engine.spend().metric_calls, 0);
}
