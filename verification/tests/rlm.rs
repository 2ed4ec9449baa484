//! A run of turns: what the model is shown, what becomes of its replies, and how the run ends.

use dspy_rs::chat::{Chat, LmError, Message, ParseError, PredictError};
use dspy_rs::modules::rlm::metadata::{CallMetadata, FieldMeta};
use dspy_rs::modules::rlm::namespace::{safe_namespace_repr, sanitize_python_surface, PyShown};
use dspy_rs::modules::rlm::perception::{
    build_perception_message, classify_exec_outcome, decide_turn_policy, exec_outcome_kind,
    outcome_to_raw_output, perception_feedback_from_outcome, predict_response_kind_from_outcome,
    recoverable_outcome_from_parse_error, ExecOutcome, PerceptionFeedback, TurnDecision,
};
use dspy_rs::modules::rlm::runtime::{
    default_runtime, PyO3Runtime, RlmRuntime, Runtime, StubRuntime,
};
use dspy_rs::modules::rlm::submit::SubmitError;
use dspy_rs::modules::rlm::turns::{
    extract_input_field_metadata, InputRenderSpec, RlmAction, RlmBuilder, RlmConfig, RlmError,
    RlmRun,
};
use dspy_rs::modules::rlm::types::{
    FieldSchema, OutputFormat, Primitive, SignatureSchema, TypeIr,
};
use dspy_rs::modules::rlm::values::{BamlValue, PyKind};
use dspy_rs::trace::LmUsage;
use indexmap::IndexMap;

fn text_field(name: &str) -> FieldSchema {
    FieldSchema {
        rust_name: name.to_string(),
        lm_name: name.to_string(),
        docs: String::new(),
        type_ir: TypeIr::Primitive(Primitive::Text),
        type_repr: "string".to_string(),
        constraints: vec![],
    }
}

fn policy_schema() -> SignatureSchema {
    SignatureSchema {
        instruction: String::new(),
        input_fields: vec![text_field("prompt")],
        output_fields: vec![text_field("answer")],
        output_format: OutputFormat {
            target: TypeIr::Primitive(Primitive::Text),
            classes: vec![],
            enums: vec![],
            aliases: vec![],
        },
    }
}

fn shown(kind: PyKind, repr: &str) -> PyShown {
    PyShown {
        kind,
        length: None,
        repr: Ok(repr.to_string()),
        first_reprs: vec![],
        text: Ok(repr.to_string()),
        class_name: None,
        callable: false,
    }
}

fn called(raw: &str, total: u64) -> CallMetadata {
    CallMetadata {
        raw_response: raw.to_string(),
        lm_usage: LmUsage { prompt_tokens: 0, completion_tokens: total, total_tokens: total },
        tool_calls: vec![],
        tool_executions: vec![],
        node_id: None,
        field_meta: IndexMap::new(),
    }
}

/// A runtime that does not come with the library.
struct Remote {
    queries: usize,
}

impl RlmRuntime for Remote {
    fn sub_lm_budget_remaining(&self, remaining: Option<usize>) -> usize {
        remaining.unwrap_or(self.queries)
    }
}

#[test]
fn other_runtimes_need_a_second_model_unless_they_say_otherwise() {
    let remote = Remote { queries: 7 };
    assert!(remote.requires_sub_lm_tools());
    assert_eq!(remote.sub_lm_budget_remaining(None), 7);
    assert_eq!(remote.sub_lm_budget_remaining(Some(2)), 2);
    let module = RlmBuilder::new().build(&policy_schema(), None, true);
    assert!(module.prepare(remote.requires_sub_lm_tools(), false).is_err());
    assert!(module.prepare(remote.requires_sub_lm_tools(), true).expect("ready").is_some());
    assert_eq!(StubRuntime::new(3).sub_lm_budget_remaining(Some(2)), 0);
    assert_eq!(PyO3Runtime.sub_lm_budget_remaining(Some(2)), 2);
    assert_eq!(PyO3Runtime.sub_lm_budget_remaining(None), 0);
}

#[test]
fn default_runtime_in_tests_uses_stub_policy() {
    let runtime = default_runtime(3, None, true);
    assert!(
        !runtime.requires_sub_lm_tools(),
        "test default runtime should be StubRuntime without required sub-LM tools"
    );
}

#[test]
fn default_runtime_override_to_pyo3_is_explicit() {
    let runtime = default_runtime(3, Some("pyo3"), true);
    assert!(
        runtime.requires_sub_lm_tools(),
        "explicit pyo3 override should require sub-LM tools"
    );
}

#[test]
fn default_runtime_override_to_stub_is_explicit() {
    let runtime = default_runtime(3, Some("stub"), true);
    assert!(
        !runtime.requires_sub_lm_tools(),
        "explicit stub override should not require sub-LM tools"
    );
    assert!(!default_runtime(3, Some(" STUB "), false).requires_sub_lm_tools());
    assert!(default_runtime(3, Some("other"), false).requires_sub_lm_tools());
}

#[test]
fn perception_message_uses_env_task_namespace_and_prompt_markers() {
    let globals = vec![
        ("prompt".to_string(), shown(PyKind::Text, "'Where did signal drop?'")),
        ("result_count".to_string(), shown(PyKind::Int, "7")),
        ("_tmp".to_string(), shown(PyKind::Int, "99")),
    ];
    let message = build_perception_message(
        &vec!["prompt".to_string()],
        &globals,
        "Inspect trajectories",
        None,
        3,
        11,
        true,
    )
    .expect("message");

    assert!(message.contains("[env] 3 turns | 11 sub-LLM calls"));
    assert!(message.contains("[query] Inspect trajectories"));
    assert!(message.contains("--- namespace ---"));
    assert!(message.contains("prompt ="));
    assert!(message.contains("result_count = 7"));
    assert!(!message.contains("_tmp ="));
    assert!(message.ends_with(">>>"));
}

#[test]
fn perception_message_turn_two_includes_stdout_and_last_turn_warning() {
    let globals = vec![("prompt".to_string(), shown(PyKind::Text, "'x'"))];
    let feedback = PerceptionFeedback {
        stdout: Some("computed summary".to_string()),
        stderr: None,
    };

    let message = build_perception_message(
        &vec!["prompt".to_string()],
        &globals,
        "Inspect trajectories",
        Some(&feedback),
        1,
        3,
        false,
    )
    .expect("message");

    assert!(message.contains("[env] 1 turn | 3 sub-LLM calls"));
    assert!(message.contains("[stdout]"));
    assert!(message.contains("computed summary"));
    assert!(message.contains("⚠ LAST TURN — you MUST call SUBMIT() now with your best answer."));
    assert!(!message.contains("[query]"));
}

#[test]
fn namespace_filtering_excludes_noise_and_keeps_roots() {
    let mut callable_fn = shown(PyKind::Other, "<built-in function len>");
    callable_fn.callable = true;
    let globals = vec![
        ("prompt".to_string(), shown(PyKind::Text, "'Where did signal drop?'")),
        ("i".to_string(), shown(PyKind::Int, "1")),
        ("_scratch".to_string(), shown(PyKind::Text, "'temp'")),
        ("json".to_string(), shown(PyKind::Module, "<module 'json'>")),
        ("callable_fn".to_string(), callable_fn),
        ("kept_value".to_string(), shown(PyKind::Int, "42")),
    ];
    let message = build_perception_message(
        &vec!["prompt".to_string()],
        &globals,
        "Inspect trajectories",
        None,
        3,
        9,
        true,
    )
    .expect("message");

    assert!(message.contains("prompt ="));
    assert!(message.contains("kept_value = 42"));
    assert!(!message.contains("\ni = "));
    assert!(!message.contains("_scratch = "));
    assert!(!message.contains("json = "));
    assert!(!message.contains("callable_fn = "));
}

#[test]
fn sanitize_python_surface_strips_module_paths() {
    let rendered = sanitize_python_surface(
        "Sessions(items=[tanha::types::Session(id='abc')], kind=tanha::types::Kind::Fast)",
    );
    assert!(!rendered.contains("tanha::types::"));
    assert!(rendered.contains("Session(id='abc')"));
    assert!(rendered.contains("kind=Fast"));
}

#[test]
fn root_namespace_repr_uses_object_repr_without_custom_heuristics() {
    let sessions = shown(PyKind::Other, "Sessions(CUSTOM_REPR)");
    let rendered = safe_namespace_repr(&sessions, true).expect("repr");
    assert_eq!(rendered, "Sessions(CUSTOM_REPR)");
}

#[test]
fn a_repr_that_fails_is_reported() {
    let mut broken = shown(PyKind::Other, "");
    broken.repr = Err("boom".to_string());
    assert_eq!(
        safe_namespace_repr(&broken, true),
        Err("repr() failed: boom".to_string())
    );
}

#[test]
fn long_lists_are_previewed_by_their_first_items() {
    let mut list = shown(PyKind::List, "unused");
    list.length = Some(7);
    list.first_reprs = vec![Ok("'a'".to_string()), Ok("'b'".to_string()), Ok("'c'".to_string())];
    assert_eq!(
        safe_namespace_repr(&list, true),
        Ok("['a', 'b', ... (7 total)]".to_string())
    );
}

#[test]
fn extract_signature_uses_custom_repl_history_render_template() {
    let fields = extract_input_field_metadata();
    assert_eq!(fields.len(), 2);
    match fields[1].input_render {
        InputRenderSpec::Jinja(template) => {
            assert!(template.contains("=== Turn {{ entry.turn }} ==="));
            assert!(template.contains("Code:"));
            assert!(template.contains("Output:"));
            assert!(template.contains("{{ entry.code }}\n\nOutput:\n"));
            assert!(template.contains("{% if not loop.last %}\n\n{% endif %}"));
        }
        other => panic!("expected jinja render template, got: {other:?}"),
    }
}

#[test]
fn turn_policy_reserves_last_turn_for_finalization_then_fallback() {
    assert!(matches!(decide_turn_policy(1, 3), TurnDecision::Continue));
    assert!(matches!(decide_turn_policy(2, 3), TurnDecision::Continue));
    assert!(matches!(decide_turn_policy(3, 3), TurnDecision::Finalization));
    assert!(matches!(decide_turn_policy(4, 3), TurnDecision::Fallback));
}

#[test]
fn perception_feedback_maps_stdout_and_stderr_honestly() {
    let continue_feedback = perception_feedback_from_outcome(&ExecOutcome::Continue {
        output: "ok".to_string(),
    });
    assert_eq!(continue_feedback.stdout.as_deref(), Some("ok"));
    assert!(continue_feedback.stderr.is_none());

    let error_feedback = perception_feedback_from_outcome(&ExecOutcome::PythonException {
        message: "Traceback...".to_string(),
    });
    assert_eq!(error_feedback.stderr.as_deref(), Some("Traceback..."));
    assert!(error_feedback.stdout.is_none());
}

#[test]
fn classify_exec_outcome_covers_all_variants_and_feedback_projection() {
    let continue_outcome = classify_exec_outcome(Ok("x\n".into()), None);
    assert!(matches!(
        continue_outcome,
        ExecOutcome::Continue { ref output } if output == "x\n"
    ));
    assert_eq!(outcome_to_raw_output(&continue_outcome), "x\n");

    let submit_ok = classify_exec_outcome(
        Ok(String::new()),
        Some(Ok((BamlValue::Text("ok".to_string()), IndexMap::new()))),
    );
    assert!(matches!(submit_ok, ExecOutcome::SubmitAccepted { .. }));
    assert!(outcome_to_raw_output(&submit_ok).is_empty());

    let submit_validation = classify_exec_outcome(
        Err("Traceback...\nSubmitError".to_string()),
        Some(Err(SubmitError::ValidationError {
            message: "validation failed".to_string(),
            errors: vec!["field `answer` expected string".to_string()],
        })),
    );
    assert!(matches!(
        submit_validation,
        ExecOutcome::SubmitValidationError { .. }
    ));
    assert_eq!(
        outcome_to_raw_output(&submit_validation),
        "Traceback...\nSubmitError"
    );

    let submit_assert = classify_exec_outcome(
        Err("SubmitError: Assertion failed".to_string()),
        Some(Err(SubmitError::AssertionFailed {
            label: "non_empty".to_string(),
            expression: "this.len() > 0".to_string(),
        })),
    );
    assert!(matches!(
        submit_assert,
        ExecOutcome::SubmitAssertionFailed { .. }
    ));
    assert_eq!(
        outcome_to_raw_output(&submit_assert),
        "SubmitError: Assertion failed"
    );

    let python_exception = classify_exec_outcome(Err("Traceback...".into()), None);
    assert!(matches!(
        python_exception,
        ExecOutcome::PythonException { ref message } if message == "Traceback..."
    ));
    assert_eq!(outcome_to_raw_output(&python_exception), "Traceback...");

    let recoverable = ExecOutcome::RecoverableParse {
        message: "Your response was empty.".to_string(),
    };
    assert_eq!(
        outcome_to_raw_output(&recoverable),
        "Your response was empty."
    );
}

#[test]
fn outcomes_without_output_are_written_out() {
    let validation = ExecOutcome::SubmitValidationError {
        message: "validation failed".to_string(),
        errors: vec!["one".to_string(), "two".to_string()],
        raw_output: String::new(),
    };
    assert_eq!(outcome_to_raw_output(&validation), "validation failed\none\ntwo");
    assert_eq!(exec_outcome_kind(&validation), "submit_validation_error");
    let assertion = ExecOutcome::SubmitAssertionFailed {
        label: "positive".to_string(),
        expression: "this > 0".to_string(),
        raw_output: String::new(),
    };
    assert_eq!(
        outcome_to_raw_output(&assertion),
        "Submit assertion failed: `positive` (this > 0)"
    );
    assert_eq!(exec_outcome_kind(&assertion), "submit_assertion_failed");
    let failed = ExecOutcome::PythonException { message: "x".to_string() };
    assert_eq!(exec_outcome_kind(&failed), "python_exception");
    assert!(!predict_response_kind_from_outcome(&failed).is_empty());
}

#[test]
fn recoverable_parse_error_detection_only_triggers_on_empty_response() {
    let empty_err = PredictError::Parse {
        source: ParseError::ExtractionFailed {
            field: "code".to_string(),
            raw_response: String::new(),
            reason: "empty passthrough response".to_string(),
        },
        raw_response: "   \n\t".to_string(),
        lm_usage: LmUsage::default(),
        chat: Chat::new(vec![]),
    };
    let recovered = recoverable_outcome_from_parse_error(&empty_err, "nothing to extract")
        .expect("empty response should be recoverable");
    assert!(recovered.0.contains("Empty response from model"));
    assert!(recovered.0.contains("(nothing to extract)"));
    assert!(recovered.0.contains("Raw response: len="));
    assert!(recovered.0.contains("\\n\\t"));

    let non_empty_err = PredictError::Parse {
        source: ParseError::ExtractionFailed {
            field: "code".to_string(),
            raw_response: "no code".to_string(),
            reason: "failed extraction".to_string(),
        },
        raw_response: "I refuse".to_string(),
        lm_usage: LmUsage::default(),
        chat: Chat::new(vec![]),
    };
    assert!(
        recoverable_outcome_from_parse_error(&non_empty_err, "no code").is_none(),
        "non-empty parse failures should remain terminal"
    );
}

#[test]
fn pyo3_runtime_requires_sub_lm_when_not_configured() {
    let module = RlmBuilder::new()
        .runtime(Runtime::PyO3(PyO3Runtime))
        .build(&policy_schema(), None, true);
    assert!(module.runtime.requires_sub_lm_tools());

    let err = module
        .prepare(module.runtime.requires_sub_lm_tools(), false)
        .expect_err("missing sub-LM should fail before first action turn");
    match err.into_predict_error() {
        PredictError::Module { message, .. } => {
            assert!(
                message.contains("configured sub-LM"),
                "expected sub-LM config error, got: {message}"
            );
        }
        other => panic!("expected module error, got: {other:?}"),
    }
}

#[test]
fn stub_runs_without_sub_lm_tools() {
    let module = RlmBuilder::new()
        .runtime(Runtime::Stub(StubRuntime::new(3)))
        .build(&policy_schema(), None, true);
    let tools = module.prepare(module.runtime.requires_sub_lm_tools(), false).expect("ready");
    assert!(tools.is_none());
}

fn small_run(max_iterations: usize, fallback: bool) -> RlmRun {
    let config = RlmConfig {
        max_iterations,
        max_llm_calls: 5,
        max_output_chars: 100,
        enable_extraction_fallback: fallback,
    };
    RlmRun::new(config, "previews".to_string(), "hint".to_string(), vec!["prompt".to_string()])
}

#[test]
fn an_accepted_submission_ends_the_run() {
    let mut run = small_run(3, true);
    let globals = vec![("prompt".to_string(), shown(PyKind::Text, "'x'"))];
    match run.next_turn(5, &globals).expect("first turn") {
        RlmAction::Predict { perception, history } => {
            assert!(perception.contains("[query] hint"));
            assert!(history.is_none());
        }
        other => panic!("expected a call of the model, got: {other:?}"),
    }
    let chat = Chat::new(vec![Message::assistant("SUBMIT(answer='y')")]);
    match run
        .action_replied(Ok(("SUBMIT(answer='y')".to_string(), called("raw", 7), chat)), "")
        .expect("reply")
    {
        RlmAction::Execute { code } => assert_eq!(code, "SUBMIT(answer='y')"),
        other => panic!("expected code to run, got: {other:?}"),
    }
    let meta: IndexMap<String, FieldMeta> = IndexMap::new();
    match run.executed(
        Ok(String::new()),
        Some(Ok((BamlValue::Text("y".to_string()), meta))),
    ) {
        RlmAction::Accept { value, .. } => {
            assert!(matches!(value, BamlValue::Text(ref t) if t == "y"))
        }
        other => panic!("expected the submission, got: {other:?}"),
    }
    let (metadata, _) = run.accepted(Ok(()), IndexMap::new()).expect("accepted");
    assert_eq!(metadata.lm_usage.total_tokens, 7);
    assert!(metadata.raw_response.contains("raw"));
}

#[test]
fn a_run_out_of_turns_falls_back_to_extraction() {
    let mut run = small_run(1, true);
    let globals = vec![("prompt".to_string(), shown(PyKind::Text, "'x'"))];
    run.next_turn(5, &globals).expect("first turn");
    run.action_replied(Ok(("print(1)".to_string(), called("raw", 1), Chat::new(vec![]))), "")
        .expect("reply");
    assert!(matches!(run.executed(Ok("1\n".to_string()), None), RlmAction::Turn));
    match run.next_turn(5, &globals).expect("fallback") {
        RlmAction::Extract { variables_info, repl_history } => {
            assert_eq!(variables_info, "previews");
            assert_eq!(repl_history.len(), 1);
            assert_eq!(repl_history[0].turn, 1);
            assert_eq!(repl_history[0].code, "print(1)");
            assert_eq!(repl_history[0].output, "1\n");
        }
        other => panic!("expected extraction, got: {other:?}"),
    }
    let (metadata, _) = run
        .extracted(Ok((called("final", 2), Chat::new(vec![]))))
        .expect("extracted");
    assert_eq!(metadata.lm_usage.total_tokens, 3);
}

#[test]
fn a_run_out_of_turns_without_fallback_fails() {
    let mut run = small_run(1, false);
    let globals = vec![];
    run.next_turn(5, &globals).expect("first turn");
    run.action_replied(Ok(("print(1)".to_string(), called("raw", 1), Chat::new(vec![]))), "")
        .expect("reply");
    run.executed(Ok("1\n".to_string()), None);
    match run.next_turn(5, &globals) {
        Err(RlmError::MaxIterationsReached { max }) => assert_eq!(max, 1),
        other => panic!("expected the limit of turns, got: {other:?}"),
    }
}

#[test]
fn a_failed_call_of_the_model_ends_the_run() {
    let mut run = small_run(2, true);
    let globals = vec![];
    run.next_turn(5, &globals).expect("first turn");
    let refused = PredictError::Lm {
        source: LmError::Provider { provider: "p".to_string(), message: "down".to_string() },
    };
    assert!(matches!(
        run.action_replied(Err(refused), ""),
        Err(RlmError::ActionPredict { .. })
    ));
}

#[test]
fn an_empty_reply_costs_a_turn_only() {
    let mut run = small_run(2, true);
    let globals = vec![];
    run.next_turn(5, &globals).expect("first turn");
    let empty = PredictError::Parse {
        source: ParseError::MissingField { field: "code".to_string(), raw_response: String::new() },
        raw_response: "  ".to_string(),
        lm_usage: LmUsage { prompt_tokens: 1, completion_tokens: 1, total_tokens: 2 },
        chat: Chat::new(vec![]),
    };
    assert!(matches!(run.action_replied(Err(empty), "no code"), Ok(RlmAction::Turn)));
    match run.next_turn(5, &globals).expect("second turn") {
        RlmAction::Predict { perception, .. } => {
            assert!(perception.contains("Empty response from model (no code)"));
            assert!(perception.contains("LAST TURN"));
        }
        other => panic!("expected a call of the model, got: {other:?}"),
    }
}
