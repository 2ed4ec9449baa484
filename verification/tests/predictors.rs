//! Predictors, the modules around them, and the values that they exchange.

use dspy_rs::chat::{Chat, LmError, Message, ParseError, PredictError, Role};
use dspy_rs::json::{
    canonical_hash, extend_map, find_member, json_string, put_member, Json, JsonMap, StableHasher,
};
use dspy_rs::modules::chain_of_thought::Reasoning;
use dspy_rs::modules::react::{
    choose_tool, is_terminal_action, render_tool_manifest, ReActAction, ReActActionStep,
    ReActBuilder, ReActRun, ReActTool,
};
use dspy_rs::modules::rlm::metadata::{CallMetadata, FieldMeta, MetadataAcc};
use dspy_rs::predictors::calls::{
    after_replay, conclude_call, internal_error, map_run_error, output_rust_name,
    predicted_from_run, serve_recorded_span, span_request, translate_field_meta,
    translate_parse_error, CallEnd, CallStep, FieldKey, LmReply, RecordedCall, ReplayDirective,
    RunError,
};
use dspy_rs::predictors::predict::{
    demo_from_json, effective_overlay, json_from_demo, Demo, FieldNames, Predict, PredictBuilder,
    SlotOverlay,
};
use dspy_rs::predictors::tool_schema::{
    build_program, field_type_from_json_schema, FieldType, ToolDefinition, TypeTable,
};
use dspy_rs::predictors::{in_request_order, DummyPredict};
use dspy_rs::programs::cot::{ChainofThought, MetaField, MetaSignature};
use dspy_rs::providers::DummyProvider;
use dspy_rs::text::{lines_of, normalize, truncate_str, words_of};
use dspy_rs::trace::{LmUsage, SpanEvent};
use indexmap::IndexMap;

fn string(s: &str) -> Json {
    Json::Str(s.to_string())
}

fn map(pairs: &[(&str, &str)]) -> JsonMap {
    pairs.iter().map(|(k, v)| (k.to_string(), string(v))).collect()
}

fn get(map: &JsonMap, name: &str) -> Option<String> {
    map.iter().find(|(n, _)| n == name).map(|(_, v)| json_string(v))
}

fn fields() -> FieldNames {
    FieldNames { inputs: vec!["prompt".to_string()], outputs: vec!["answer".to_string()] }
}

fn typed_row(prompt: &str, answer: &str) -> Demo<JsonMap, JsonMap> {
    Demo::new(map(&[("prompt", prompt)]), map(&[("answer", answer)]))
}

#[test]
fn typed_and_json_row_round_trip_preserves_fields() {
    let typed = typed_row("question", "response");
    let row = json_from_demo(&typed);

    assert_eq!(get(&row, "prompt").as_deref(), Some("\"question\""));
    assert_eq!(get(&row, "answer").as_deref(), Some("\"response\""));

    let round_trip = demo_from_json(&row, &fields());
    assert_eq!(get(&round_trip.input, "prompt").as_deref(), Some("\"question\""));
    assert_eq!(get(&round_trip.output, "answer").as_deref(), Some("\"response\""));
}

#[test]
fn demo_from_json_splits_fields_by_schema() {
    let row = map(&[
        ("prompt", "schema-input"),
        ("answer", "schema-output"),
        ("extra", "ignored"),
    ]);

    let typed = demo_from_json(&row, &fields());
    assert_eq!(get(&typed.input, "prompt").as_deref(), Some("\"schema-input\""));
    assert_eq!(get(&typed.output, "answer").as_deref(), Some("\"schema-output\""));
    assert_eq!(typed.input.len() + typed.output.len(), 2);
}

#[test]
fn predictor_info_load_state_round_trips_json_demo_rows() {
    let row = json_from_demo(&typed_row("demo-input", "demo-output"));
    let mut predictor = Predict::new("Sig".to_string(), "default".to_string());

    predictor
        .load_state(None, Ok(vec![row]))
        .expect("predictor should accept JSON demo rows");

    let demos = predictor.dump_state().demos;
    assert_eq!(demos.len(), 1);
    assert_eq!(get(&demos[0], "prompt").as_deref(), Some("\"demo-input\""));
    assert_eq!(get(&demos[0], "answer").as_deref(), Some("\"demo-output\""));
}

#[test]
fn a_state_that_cannot_be_read_changes_nothing() {
    let mut predictor = PredictBuilder::new()
        .named("drafter".to_string())
        .instruction("be brief".to_string())
        .demo(map(&[("prompt", "p")]))
        .build("Sig".to_string(), "default".to_string());
    assert_eq!(
        predictor.load_state(Some("other".to_string()), Err("bad row".to_string())),
        Err("bad row".to_string())
    );
    assert_eq!(predictor.instruction(), "be brief");
    assert_eq!(predictor.dump_state().demos.len(), 1);
    assert_eq!(predictor.component_name(), "drafter");
}

#[test]
fn an_instruction_is_set_cleared_or_left() {
    let mut predictor = Predict::new("Sig".to_string(), "default".to_string());
    assert!(!predictor.has_instance_state());
    assert_eq!(predictor.instruction(), "default");
    predictor.apply_state(Some(Some("x".to_string())), None);
    assert_eq!(predictor.instruction(), "x");
    assert!(predictor.has_instance_state());
    predictor.apply_state(None, Some(vec![map(&[("prompt", "p")])]));
    assert_eq!(predictor.instruction(), "x");
    predictor.apply_state(Some(None), None);
    assert_eq!(predictor.instruction(), "default");
    assert_eq!(predictor.dump_state().demos.len(), 1);
    predictor.assign_trace_name("self");
    assert_eq!(predictor.component_name(), "self");
}

#[test]
fn a_conversation_begins_with_the_prefix() {
    let mut predictor = Predict::new("Sig".to_string(), "default".to_string());
    let demos = vec![("u".to_string(), "a".to_string())];
    let chat = predictor.build_chat("system", &demos, "question");
    let shown: Vec<(Role, &str)> =
        chat.messages.iter().map(|m| (m.role, m.content.as_str())).collect();
    assert_eq!(
        shown,
        vec![
            (Role::System, "system"),
            (Role::User, "u"),
            (Role::Assistant, "a"),
            (Role::User, "question"),
        ]
    );
    // What a prompt begins with is kept until the state changes.
    let again = predictor.build_chat("other", &vec![], "next");
    assert_eq!(again.messages.len(), 4);
    assert_eq!(again.messages[0].content, "system");
    assert_eq!(again.messages[3].content, "next");
    predictor.apply_state(Some(Some("x".to_string())), None);
    let anew = predictor.build_chat("other", &vec![], "next");
    assert_eq!(anew.messages.len(), 2);
    assert_eq!(anew.messages[0].content, "other");
}

#[test]
fn later_overlays_win_slot_by_slot() {
    let overlay = |base: &str, entries: &[(&str, &str)]| {
        Some(SlotOverlay { base: base.to_string(), entries: map(entries) })
    };
    let merged = effective_overlay(
        "p",
        &overlay("p", &[("a", "1"), ("b", "1")]),
        &overlay("p", &[("b", "2"), ("c", "2")]),
        &map(&[("c", "3")]),
    )
    .expect("something is set");
    assert_eq!(get(&merged.entries, "a").as_deref(), Some("\"1\""));
    assert_eq!(get(&merged.entries, "b").as_deref(), Some("\"2\""));
    assert_eq!(get(&merged.entries, "c").as_deref(), Some("\"3\""));
    assert!(effective_overlay("p", &None, &None, &vec![]).is_none());
    let other = effective_overlay("p", &None, &overlay("q", &[("b", "2")]), &vec![]);
    assert!(other.is_none());
}

fn keys() -> Vec<FieldKey> {
    vec![FieldKey {
        rust_name: "final_answer".to_string(),
        lm_name: "answer".to_string(),
        path: vec!["inner".to_string(), "answer".to_string()],
    }]
}

fn reply(raw: &str) -> LmReply {
    LmReply {
        raw_response: raw.to_string(),
        usage: LmUsage { prompt_tokens: 1, completion_tokens: 2, total_tokens: 3 },
        chat: Chat::new(vec![Message::user("q"), Message::assistant(raw)]),
        tool_calls: vec![],
        tool_executions: vec![],
        events: vec![SpanEvent::Other],
    }
}

fn meta(raw: &str) -> FieldMeta {
    FieldMeta { raw_text: raw.to_string(), flags: vec![], checks: vec![] }
}

#[test]
fn errors_and_metadata_carry_the_names_of_the_code() {
    assert_eq!(output_rust_name(&keys(), "answer"), "final_answer");
    assert_eq!(output_rust_name(&keys(), "other"), "other");
    let nested = ParseError::Multiple {
        errors: vec![ParseError::MissingField {
            field: "answer".to_string(),
            raw_response: "raw".to_string(),
        }],
        partial: None,
    };
    match translate_parse_error(&keys(), nested) {
        ParseError::Multiple { errors, .. } => assert!(matches!(
            &errors[0],
            ParseError::MissingField { field, .. } if field == "final_answer"
        )),
        other => panic!("unexpected error: {other:?}"),
    }
    let mut metas = IndexMap::new();
    metas.insert("answer".to_string(), meta("42"));
    let renamed = translate_field_meta(&keys(), &metas);
    assert_eq!(renamed.get("final_answer").map(|m| m.raw_text.as_str()), Some("42"));
    assert!(renamed.get("answer").is_none());
}

#[test]
fn a_read_reply_is_returned_and_recorded() {
    let mut metas = IndexMap::new();
    metas.insert("answer".to_string(), meta("42"));
    let end = CallEnd::Read { reply: reply("raw"), output: map(&[("answer", "42")]), metas };
    let (result, span) = conclude_call(&keys(), "model", Some(4), end);
    let (metadata, chat) = result.expect("read");
    assert_eq!(metadata.raw_response, "raw");
    assert_eq!(metadata.node_id, Some(4));
    assert_eq!(metadata.lm_usage.total_tokens, 3);
    assert_eq!(chat.messages.len(), 2);
    assert!(span.error.is_none());
    assert_eq!(span.raw_output.as_deref(), Some("raw"));
    assert!(span.output.is_some());
}

#[test]
fn calls_that_fail_say_where() {
    let failed = CallEnd::Failed { message: "down".to_string() };
    let (result, _) = conclude_call(&keys(), "model", None, failed);
    match result {
        Err(PredictError::Lm { source: LmError::Provider { provider, message } }) => {
            assert_eq!(provider, "model");
            assert_eq!(message, "down");
        }
        other => panic!("unexpected end: {other:?}"),
    }

    let unreadable = CallEnd::Unreadable {
        reply: reply("raw"),
        error: ParseError::MissingField {
            field: "answer".to_string(),
            raw_response: "raw".to_string(),
        },
        message: "no answer".to_string(),
    };
    let (result, span) = conclude_call(&keys(), "model", None, unreadable);
    assert!(matches!(result, Err(PredictError::Parse { ref raw_response, .. }) if raw_response == "raw"));
    let error = span.error.expect("recorded");
    assert_eq!(error.kind, "parse");
    assert_eq!(error.message, "no answer");
    assert_eq!(span.usage.total_tokens, 3);

    let untyped = CallEnd::Untyped {
        reply: reply("raw"),
        reason: "no such field".to_string(),
        message: "untyped".to_string(),
    };
    let (result, span) = conclude_call(&keys(), "model", None, untyped);
    assert!(matches!(result, Err(PredictError::Parse { .. })));
    assert_eq!(span.error.map(|e| e.kind).as_deref(), Some("parse"));
}

#[test]
fn recorded_calls_are_served_without_running_again() {
    let recorded = || RecordedCall {
        events: vec![SpanEvent::ToolRun {
            name: "search".to_string(),
            result: "found".to_string(),
            error: None,
        }],
        raw_output: Some("raw".to_string()),
        output: map(&[("answer", "42")]),
        usage: LmUsage { prompt_tokens: 0, completion_tokens: 5, total_tokens: 5 },
        completion: vec![],
    };
    let (result, span) =
        serve_recorded_span(recorded(), Chat::new(vec![Message::user("q")]), Some(1), Ok(()));
    let (metadata, chat) = result.expect("served");
    assert_eq!(metadata.tool_executions, vec!["found".to_string()]);
    assert_eq!(chat.messages.len(), 2);
    assert_eq!(chat.messages[1].content, "raw");
    assert!(span.error.is_none());

    let (result, span) =
        serve_recorded_span(recorded(), Chat::new(vec![]), None, Err("changed".to_string()));
    assert!(matches!(result, Err(PredictError::Replay { ref message }) if message == "changed"));
    assert!(span.output.is_none());
}

#[test]
fn only_calls_that_a_replay_lets_through_ask_the_model() {
    let chat = || Chat::new(vec![Message::system("s"), Message::user("q")]);
    let refuse = ReplayDirective::Refuse { message: "not recorded".to_string() };
    match after_replay(Some(refuse), chat(), None) {
        CallStep::Over { result: Err(PredictError::Replay { message }), outcome } => {
            assert_eq!(message, "not recorded");
            assert_eq!(outcome.error.map(|e| e.kind).as_deref(), Some("lm"));
        }
        other => panic!("unexpected step: {other:?}"),
    }
    let span = RecordedCall {
        events: vec![],
        raw_output: Some("raw".to_string()),
        output: map(&[("answer", "42")]),
        usage: LmUsage::default(),
        completion: vec![],
    };
    match after_replay(Some(ReplayDirective::Serve { span, decoded: Ok(()) }), chat(), Some(2)) {
        CallStep::Over { result: Ok((metadata, talk)), .. } => {
            assert_eq!(metadata.node_id, Some(2));
            assert_eq!(talk.messages.len(), 3);
        }
        other => panic!("unexpected step: {other:?}"),
    }
    assert!(matches!(
        after_replay(Some(ReplayDirective::Live), chat(), None),
        CallStep::Ask { chat } if chat.messages.len() == 2
    ));
    assert!(matches!(after_replay(None, chat(), None), CallStep::Ask { .. }));
}

#[test]
fn a_record_keeps_the_prefix_apart() {
    let chat = Chat::new(vec![Message::system("s"), Message::user("q")]);
    let request = span_request("drafter", &chat, 1, None, "model");
    assert_eq!(request.component, "drafter");
    assert_eq!(request.model, "model");
    assert_eq!(request.prefix.map(|p| p.len()), Some(1));
    assert_eq!(request.suffix.len(), 1);
    assert_eq!(request.suffix[0].content, "q");
    let whole = span_request("drafter", &chat, 0, Some(map(&[("a", "b")])), "model");
    assert!(whole.prefix.is_none());
    assert_eq!(whole.suffix.len(), 2);
    assert_eq!(whole.input.map(|m| m.len()), Some(1));
}

#[test]
fn errors_of_runs_become_errors_of_predictions() {
    let replay = map_run_error(&keys(), RunError::Replay { message: "m".to_string() });
    assert!(matches!(replay, PredictError::Replay { ref message } if message == "m"));
    let other = map_run_error(&keys(), RunError::Other { message: "m".to_string() });
    assert!(matches!(other, PredictError::Module { .. } | PredictError::Lm { .. }));
    assert!(matches!(
        internal_error("m".to_string()),
        PredictError::Module { .. } | PredictError::Lm { .. }
    ));
    let nothing = predicted_from_run(&keys(), None, Ok(()), Chat::new(vec![])).expect("typed");
    assert_eq!(nothing.raw_response, "");
    let untyped =
        predicted_from_run(&keys(), None, Err("no such field".to_string()), Chat::new(vec![]));
    assert!(matches!(untyped, Err(PredictError::Parse { .. })));
}

#[test]
fn json_schemas_become_field_types() {
    let mut types = TypeTable::new();
    let integer = Json::Object(map(&[("type", "integer")]));
    assert!(matches!(
        field_type_from_json_schema("n", &integer, &mut types),
        FieldType::Int
    ));
    let texts = Json::Object(vec![
        ("type".to_string(), string("array")),
        ("items".to_string(), Json::Object(map(&[("type", "string")]))),
    ]);
    match field_type_from_json_schema("list", &texts, &mut types) {
        FieldType::List(inner) => assert!(matches!(*inner, FieldType::Text)),
        other => panic!("unexpected type: {other:?}"),
    }
    let choice = Json::Object(vec![
        ("type".to_string(), string("string")),
        ("enum".to_string(), Json::Array(vec![string("a"), string("b")])),
    ]);
    match field_type_from_json_schema("mode", &choice, &mut types) {
        FieldType::Enum(name) => {
            let (_, values) =
                types.enums.iter().find(|(n, _)| *n == name).expect("defined");
            assert_eq!(values, &vec!["a".to_string(), "b".to_string()]);
        }
        other => panic!("unexpected type: {other:?}"),
    }
}

#[test]
fn tools_of_a_program_have_signatures() {
    let parameters = Json::Object(vec![
        ("type".to_string(), string("object")),
        (
            "properties".to_string(),
            Json::Object(vec![(
                "query".to_string(),
                Json::Object(map(&[("type", "string"), ("description", "What to find.")])),
            )]),
        ),
        ("required".to_string(), Json::Array(vec![string("query")])),
    ]);
    let program = build_program(
        "leaf",
        &vec!["question".to_string()],
        &vec!["answer".to_string()],
        &vec![ToolDefinition {
            name: "search".to_string(),
            description: "Finds things.".to_string(),
            parameters,
        }],
    );
    assert_eq!(program.leaf, "leaf");
    assert_eq!(program.tools.len(), 1);
    assert_eq!(program.tools[0].name, "search");
    assert_eq!(program.tools[0].signature.inputs[0].name, "query");
    assert!(matches!(program.tools[0].signature.inputs[0].field_type, FieldType::Text));
}

#[test]
fn batches_come_back_in_the_order_of_their_requests() {
    let done: Vec<(usize, Result<&str, String>)> = vec![(1, Ok("b")), (0, Ok("a"))];
    assert_eq!(in_request_order(done), Ok(vec!["a", "b"]));
    let failed: Vec<(usize, Result<&str, String>)> =
        vec![(1, Err("second".to_string())), (0, Err("first".to_string()))];
    assert_eq!(in_request_order(failed), Err("first".to_string()));
}

#[test]
fn dummies_answer_without_a_model() {
    let prediction = DummyPredict.forward(map(&[("prompt", "p")]));
    assert_eq!(prediction.lm_usage.total_tokens, 0);
    let message = DummyProvider.complete(&Chat::new(vec![]));
    assert_eq!(message.content, "dummy response");
}

fn tool(name: &str) -> ReActTool {
    ReActTool { name: name.to_string(), description: format!("Runs {name}.") }
}

fn step(action: &str, input: &str) -> Option<ReActActionStep> {
    Some(ReActActionStep {
        thought: "think".to_string(),
        action: action.to_string(),
        action_input: input.to_string(),
    })
}

fn no_metadata() -> CallMetadata {
    MetadataAcc::new().into_call_metadata()
}

#[test]
fn steps_use_tools_until_one_is_final() {
    let module = ReActBuilder::new().add_tool(tool("search")).max_steps(3).build();
    let (mut run, first) = ReActRun::begin(&module, "question".to_string());
    match first {
        ReActAction::Act { input, trajectory } => {
            assert_eq!(input, "question");
            assert_eq!(trajectory, "Available tools:\n- search: Runs search.\n\n");
        }
        other => panic!("unexpected action: {other:?}"),
    }
    match run.action_replied(&module, step(" \"Search\" ", "x"), &mut no_metadata()) {
        ReActAction::CallTool { tool, args } => {
            assert_eq!(tool, Some(0));
            assert_eq!(args, "x");
        }
        other => panic!("unexpected action: {other:?}"),
    }
    assert!(matches!(
        run.observed(Some(Err("down".to_string()))),
        ReActAction::Act { .. }
    ));
    match run.action_replied(&module, step("FINISH", "42"), &mut no_metadata()) {
        ReActAction::Extract { trajectory, .. } => assert!(trajectory.ends_with(
            "Step 1\nThought: think\nAction: Search\nAction Input: x\nObservation: tool_error: down\n\nStep 2\nThought: think\nFinal: 42\n\n"
        )),
        other => panic!("unexpected action: {other:?}"),
    }
    let mut metadata = no_metadata();
    run.extracted(&mut metadata);
    assert_eq!(metadata.tool_calls.len(), 1);
    assert_eq!(metadata.tool_calls[0].id, "react-step-1");
    assert_eq!(metadata.tool_executions, vec!["tool_error: down".to_string()]);
}

#[test]
fn steps_end_when_none_is_left() {
    let module =
        ReActBuilder::new().with_tools(vec![tool("search"), tool("count")]).max_steps(0).build();
    assert_eq!(module.max_steps, 1);
    let (mut run, _) = ReActRun::begin(&module, "question".to_string());
    match run.action_replied(&module, step("unknown", "x"), &mut no_metadata()) {
        ReActAction::CallTool { tool, .. } => assert_eq!(tool, Some(0)),
        other => panic!("unexpected action: {other:?}"),
    }
    match run.observed(Some(Ok("seen".to_string()))) {
        ReActAction::Extract { trajectory, .. } => {
            assert!(trajectory.contains("Action: unknown"));
            assert!(trajectory.contains("Observation: seen"));
        }
        other => panic!("unexpected action: {other:?}"),
    }
    let bare = ReActBuilder::new().max_steps(1).build();
    let (mut without, _) = ReActRun::begin(&bare, "question".to_string());
    match without.action_replied(&bare, step("unknown", "x"), &mut no_metadata()) {
        ReActAction::CallTool { tool, .. } => assert_eq!(tool, None),
        other => panic!("unexpected action: {other:?}"),
    }
    match without.observed(None) {
        ReActAction::Extract { trajectory, .. } => {
            assert!(trajectory.contains("Observation: tool_not_found: unknown"))
        }
        other => panic!("unexpected action: {other:?}"),
    }
    let (mut failing, _) = ReActRun::begin(&module, "question".to_string());
    assert!(matches!(
        failing.action_replied(&module, None, &mut no_metadata()),
        ReActAction::Fail
    ));
}

#[test]
fn tools_are_found_by_their_name_or_else_the_first_is_taken() {
    let tools = vec![tool("search"), tool("count")];
    assert_eq!(choose_tool(&tools, "COUNT"), Some(1));
    assert_eq!(choose_tool(&tools, "the count tool"), Some(1));
    assert_eq!(choose_tool(&tools, "other"), Some(0));
    assert_eq!(choose_tool(&vec![], "count"), None);
    assert_eq!(render_tool_manifest(&vec![]), "Available tools: (none)");
    assert!(is_terminal_action("Done"));
    assert!(!is_terminal_action("search"));
}

#[test]
fn reasoning_comes_before_the_outputs() {
    assert_eq!(
        Reasoning::prepended(vec!["answer".to_string()]),
        vec!["reasoning".to_string(), "answer".to_string()]
    );
    let whole = Reasoning { reasoning: "because".to_string() }.with(42);
    assert_eq!(whole.reasoning, "because");
    let (reasoning, answer) = whole.into_parts();
    assert_eq!(reasoning.reasoning, "because");
    assert_eq!(answer, 42);
}

#[test]
fn the_chain_of_thought_program_extends_its_signature() {
    let field = |name: &str| MetaField { name: name.to_string(), desc: String::new() };
    let mut signature =
        MetaSignature { inputs: vec![field("question")], outputs: vec![field("answer")] };
    let program = ChainofThought::new(&mut signature, false);
    assert!(program.signature.outputs.iter().any(|f| f.name == "reasoning"));
    assert!(!program.add_hint);
}

#[test]
fn metadata_of_calls_adds_up() {
    let mut acc = MetadataAcc::new();
    let mut first = no_metadata();
    first.raw_response = "one".to_string();
    first.lm_usage.total_tokens = 2;
    first.field_meta.insert("answer".to_string(), meta("a"));
    acc.absorb_call_metadata(first);
    let mut second = no_metadata();
    second.raw_response = "two".to_string();
    second.field_meta.insert("answer".to_string(), meta("b"));
    second.field_meta.insert("score".to_string(), meta("c"));
    acc.absorb_call_metadata(second);
    acc.absorb_parse_metadata(
        "three".to_string(),
        LmUsage { prompt_tokens: 0, completion_tokens: 0, total_tokens: 5 },
    );
    let whole = acc.into_call_metadata();
    assert_eq!(whole.lm_usage.total_tokens, 7);
    assert!(whole.raw_response.contains("one") && whole.raw_response.contains("three"));
    let kept: Vec<(&str, &str)> = whole
        .field_meta
        .iter()
        .map(|(name, meta)| (name.as_str(), meta.raw_text.as_str()))
        .collect();
    assert_eq!(kept, vec![("answer", "b"), ("score", "c")]);
}

#[test]
fn hashes_of_json_ignore_the_order_of_members() {
    let a = Json::Object(map(&[("x", "1"), ("y", "2")]));
    let b = Json::Object(map(&[("y", "2"), ("x", "1")]));
    assert_eq!(canonical_hash(&a), canonical_hash(&b));
    assert_ne!(canonical_hash(&a), canonical_hash(&Json::Null));
    let mut hasher = StableHasher::new();
    assert_eq!(hasher.finish(), 0xcbf29ce484222325);
    hasher.write(b"a");
    assert_eq!(hasher.finish(), 0xaf63dc4c8601ec8c);
}

#[test]
fn members_of_maps_are_replaced_in_place() {
    let mut m = map(&[("a", "1"), ("b", "2")]);
    put_member(&mut m, "a".to_string(), Json::Bool(true));
    extend_map(&mut m, &map(&[("b", "3"), ("c", "4")]));
    assert_eq!(json_string(&Json::Object(m.clone())), "{\"a\":true,\"b\":\"3\",\"c\":\"4\"}");
    assert_eq!(find_member(&m, "c"), 2);
    assert_eq!(json_string(&string("a\"b\n")), "\"a\\\"b\\n\"");
    assert_eq!(
        json_string(&string("\\/\u{8}\u{c}\r\t\u{1f}\u{7f}é")),
        "\"\\\\/\\b\\f\\r\\t\\u001f\u{7f}é\""
    );
}

#[test]
fn texts_are_cut_and_split() {
    assert_eq!(truncate_str("abcdef", 10), "abcdef");
    assert_eq!(lines_of("a\nb\r\nc"), vec!["a", "b", "c"]);
    assert_eq!(words_of("  a  b\tc "), vec!["a", "b", "c"]);
    assert_eq!(normalize("  a  b\nc "), "a b c");
}
