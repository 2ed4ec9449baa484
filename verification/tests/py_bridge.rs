//! Objects of the interpreter as values, and values as objects.

use dspy_rs::modules::rlm::json_data::{read_json, JsonData};
use dspy_rs::modules::rlm::py_bridge::{
    collect_checks_for_output, json_value_to_baml_value, kwargs_to_baml_value,
    missing_output_fields, normalize_python_object, py_any_to_baml_value_untyped,
    py_to_baml_value, BamlParseError, CheckOutcome, PlainForm, PlainOffers, PyObject,
    ResponseCheck,
};
use dspy_rs::modules::rlm::py_methods::{collect_visible_methods, sanitize_signature, RawMethod};
use dspy_rs::modules::rlm::py_plain::{baml_value_to_py, json_value_to_py, text_to_py, PyPlain};
use dspy_rs::modules::rlm::py_schema::{
    begin_interpreter_setup, finish_interpreter_setup, global_names,
};
use dspy_rs::modules::rlm::py_walk::{GraphObject, PyClass, PyGraph};
use dspy_rs::modules::rlm::runtime::{InterpreterSetup, MethodSignature, MethodSource};
use dspy_rs::modules::rlm::submit::{
    clear_submit_slot, take_submit_result, SubmitError, SubmitHandler, SubmitReply, SubmitSlot,
    SubmitStep,
};
use dspy_rs::modules::rlm::types::{
    ClassDef, ClassField, Constraint, ConstraintKind, EnumDef, FieldSchema, LiteralValue, Name,
    OutputFormat, Primitive, StreamingMode, TypeIr,
};
use dspy_rs::modules::rlm::values::{BamlValue, PyKind};

fn object(kind: PyKind, kind_name: &str) -> PyObject {
    PyObject {
        kind,
        kind_name: kind_name.to_string(),
        text: Err("not a text".to_string()),
        integer: Err("not an integer".to_string()),
        fraction: Err("not a number".to_string()),
        truth: Ok(true),
        parsed: None,
        items: vec![],
        entries: vec![],
        dumped: Err("not JSON".to_string()),
        repr: None,
        lenient: vec![],
    }
}

fn py_text(s: &str) -> PyObject {
    let mut o = object(PyKind::Text, "str");
    o.text = Ok(s.to_string());
    o.dumped = Ok(format!("{s:?}"));
    o.repr = Some(format!("'{s}'"));
    o
}

fn py_int(n: i64) -> PyObject {
    let mut o = object(PyKind::Int, "int");
    o.integer = Ok(n);
    o.fraction = Ok((n as f64).to_bits());
    o.dumped = Ok(n.to_string());
    o.repr = Some(format!("{n}"));
    o
}

fn py_float(n: f64) -> PyObject {
    let mut o = object(PyKind::Float, "float");
    o.fraction = Ok(n.to_bits());
    o.dumped = Ok(format!("{n:?}"));
    o.repr = Some(format!("{n}"));
    o
}

fn kwargs(entries: Vec<(&str, PyObject)>) -> Vec<(PyObject, PyObject)> {
    entries.into_iter().map(|(key, value)| (py_text(key), value)).collect()
}

fn no_types() -> OutputFormat {
    OutputFormat {
        target: TypeIr::Primitive(Primitive::Text),
        classes: vec![],
        enums: vec![],
        aliases: vec![],
    }
}

fn field(name: &str, primitive: Primitive, type_repr: &str) -> FieldSchema {
    FieldSchema {
        rust_name: name.to_string(),
        lm_name: name.to_string(),
        docs: String::new(),
        type_ir: TypeIr::Primitive(primitive),
        type_repr: type_repr.to_string(),
        constraints: vec![],
    }
}

fn bridge_fields() -> Vec<FieldSchema> {
    let mut score = field("score", Primitive::Float, "float");
    score.constraints.push(Constraint {
        kind: ConstraintKind::Check,
        label: "non_negative".to_string(),
        expression: "this >= 0.0".to_string(),
    });
    vec![field("answer", Primitive::Text, "string"), score]
}

fn assert_fields() -> Vec<FieldSchema> {
    let mut score = field("score", Primitive::Int, "int");
    score.constraints.push(Constraint {
        kind: ConstraintKind::Assert,
        label: "positive".to_string(),
        expression: "this > 0".to_string(),
    });
    vec![score]
}

fn failed_positive() -> Vec<Vec<CheckOutcome>> {
    vec![vec![CheckOutcome {
        is_assert: true,
        label: Some("positive".to_string()),
        expression: "this > 0".to_string(),
        ok: false,
        report: None,
    }]]
}

#[test]
fn baml_value_to_py_supports_common_types() {
    let value = BamlValue::Dict(vec![
        ("name".to_string(), BamlValue::Text("alice".to_string())),
        (
            "nums".to_string(),
            BamlValue::List(vec![BamlValue::Int(1), BamlValue::Int(2)]),
        ),
        ("ok".to_string(), BamlValue::Bool(true)),
        (
            "nested".to_string(),
            BamlValue::Class(
                "Nested".to_string(),
                vec![("x".to_string(), BamlValue::Float(1.25f64.to_bits()))],
            ),
        ),
    ]);

    let dict = match baml_value_to_py(&value).expect("convert to py") {
        PyPlain::Dict(dict) => dict,
        other => panic!("expected a dictionary, got: {other:?}"),
    };
    assert_eq!(dict[0].0, "name");
    assert!(matches!(&dict[0].1, PyPlain::Text(t) if t == "alice"));
    match &dict[1].1 {
        PyPlain::List(items) => {
            assert_eq!(items.len(), 2);
            assert!(matches!(items[1], PyPlain::Int(2)));
        }
        other => panic!("expected a list, got: {other:?}"),
    }
    assert_eq!(dict[2].0, "ok");
    assert!(matches!(dict[2].1, PyPlain::Bool(true)));
    match &dict[3].1 {
        PyPlain::Dict(nested) => {
            assert_eq!(nested[0].0, "x");
            assert!(matches!(nested[0].1, PyPlain::Float(bits) if f64::from_bits(bits) == 1.25));
        }
        other => panic!("expected a dictionary, got: {other:?}"),
    }
}

#[test]
fn media_has_no_object() {
    let value = BamlValue::List(vec![BamlValue::Null, BamlValue::Media]);
    assert_eq!(
        baml_value_to_py(&value).expect_err("media"),
        "Media values are not supported in RLM V1"
    );
    let mode = BamlValue::Enum("Mode".to_string(), "Fast".to_string());
    assert!(matches!(baml_value_to_py(&mode), Ok(PyPlain::Text(ref t)) if t == "Fast"));
}

#[test]
fn json_becomes_objects_and_values() {
    let data = JsonData::Object(vec![
        ("n".to_string(), JsonData::Number { integer: Some(3), fraction: Some(3f64.to_bits()) }),
        ("f".to_string(), JsonData::Number { integer: None, fraction: Some(0.5f64.to_bits()) }),
    ]);
    match json_value_to_py(&data) {
        PyPlain::Dict(dict) => {
            assert!(matches!(dict[0].1, PyPlain::Int(3)));
            assert!(matches!(dict[1].1, PyPlain::Float(bits) if f64::from_bits(bits) == 0.5));
        }
        other => panic!("expected a dictionary, got: {other:?}"),
    }
    match json_value_to_baml_value(&data) {
        BamlValue::Dict(fields) => assert!(matches!(fields[0].1, BamlValue::Int(3))),
        other => panic!("expected a map, got: {other:?}"),
    }
}

#[test]
fn json_is_read_from_a_text() {
    let raw = "{\"b\": [1, -2, 0.5, 18446744073709551615], \"a\": null, \"b\": \"x\", \"t\": true}";
    let members = match read_json(raw).expect("an object") {
        JsonData::Object(members) => members,
        other => panic!("expected an object, got: {other:?}"),
    };
    let names: Vec<&str> = members.iter().map(|(name, _)| name.as_str()).collect();
    assert_eq!(names, vec!["b", "a", "t"]);
    assert!(matches!(&members[0].1, JsonData::Text(t) if t == "x"));
    assert!(matches!(members[1].1, JsonData::Null));
    assert!(matches!(members[2].1, JsonData::Bool(true)));

    let items = match read_json("[1, -2, 0.5, 18446744073709551615]").expect("an array") {
        JsonData::Array(items) => items,
        other => panic!("expected an array, got: {other:?}"),
    };
    assert!(matches!(
        items[1],
        JsonData::Number { integer: Some(-2), fraction: Some(bits) } if f64::from_bits(bits) == -2.0
    ));
    assert!(matches!(
        items[2],
        JsonData::Number { integer: None, fraction: Some(bits) } if f64::from_bits(bits) == 0.5
    ));
    assert!(matches!(items[3], JsonData::Number { integer: None, fraction: Some(_) }));

    assert_eq!(
        read_json("{").expect_err("no JSON"),
        "EOF while parsing an object at line 1 column 1"
    );
}

#[test]
fn a_text_holds_an_object_where_it_is_json() {
    match text_to_py("{\"n\": [1, 2.5], \"s\": \"1\"}") {
        Some(PyPlain::Dict(dict)) => {
            match &dict[0].1 {
                PyPlain::List(items) => {
                    assert!(matches!(items[0], PyPlain::Int(1)));
                    assert!(matches!(items[1], PyPlain::Float(bits) if f64::from_bits(bits) == 2.5));
                }
                other => panic!("expected a list, got: {other:?}"),
            }
            assert!(matches!(&dict[1].1, PyPlain::Text(t) if t == "1"));
        }
        other => panic!("expected a dictionary, got: {other:?}"),
    }
    assert!(matches!(text_to_py(" true "), Some(PyPlain::Bool(true))));
    assert!(text_to_py("done").is_none());
    assert!(text_to_py("").is_none());
}

#[test]
fn other_objects_are_read_as_they_are_written() {
    let mut other = object(PyKind::Other, "Point");
    other.dumped = Ok("{\"x\": 1, \"y\": [false]}".to_string());
    match py_any_to_baml_value_untyped(&other).expect("a value") {
        BamlValue::Dict(fields) => {
            assert_eq!(fields[0].0, "x");
            assert!(matches!(fields[0].1, BamlValue::Int(1)));
            assert!(matches!(&fields[1].1, BamlValue::List(items) if items.len() == 1));
        }
        value => panic!("expected a map, got: {value:?}"),
    }
    other.dumped = Ok("Point(1)".to_string());
    match py_any_to_baml_value_untyped(&other) {
        Err(BamlParseError::Jsonish(message)) => {
            assert_eq!(message, "expected value at line 1 column 1");
        }
        end => panic!("unexpected end: {end:?}"),
    }
    other.dumped = Err("Point is not serializable".to_string());
    assert!(matches!(
        py_any_to_baml_value_untyped(&other),
        Err(BamlParseError::Jsonish(ref message)) if message == "Point is not serializable"
    ));
}

fn py_list(items: Vec<PyObject>) -> PyObject {
    let mut o = object(PyKind::List, "list");
    o.items = items;
    o
}

#[test]
fn a_text_is_taken_for_the_json_in_it() {
    let numbers = TypeIr::List(Box::new(TypeIr::Primitive(Primitive::Int)));
    let mut text = py_text("[1, 2]");
    text.parsed = Some(Box::new(py_list(vec![py_int(1), py_int(2)])));
    match py_to_baml_value(&text, &numbers, &no_types()) {
        Ok(BamlValue::List(items)) => assert!(matches!(items[1], BamlValue::Int(2))),
        end => panic!("unexpected end: {end:?}"),
    }
    let as_text = py_to_baml_value(&text, &TypeIr::Primitive(Primitive::Text), &no_types());
    assert!(matches!(as_text, Ok(BamlValue::Text(ref t)) if t == "[1, 2]"));

    // A text that is no JSON holds no object.
    text.text = Ok("one and two".to_string());
    match py_to_baml_value(&text, &numbers, &no_types()) {
        Err(BamlParseError::Convert(err)) => assert_eq!(err.message, "expected list[int]"),
        end => panic!("unexpected end: {end:?}"),
    }
}

#[test]
fn json_comes_back_from_the_interpreter_as_it_was_read() {
    let raw = "{\"a\": [1, 0.5, \"x\", null], \"b\": {}}";
    let mut half = object(PyKind::Float, "float");
    half.fraction = Ok(0.5f64.to_bits());
    let list = py_list(vec![py_int(1), half, py_text("x"), object(PyKind::Null, "NoneType")]);
    let mut dict = object(PyKind::Dict, "dict");
    dict.entries = kwargs(vec![("a", list), ("b", object(PyKind::Dict, "dict"))]);
    let back = py_any_to_baml_value_untyped(&dict).expect("a value");
    let read = json_value_to_baml_value(&read_json(raw).expect("JSON"));
    assert_eq!(format!("{back:?}"), format!("{read:?}"));
}

fn class_type(name: &str) -> TypeIr {
    TypeIr::Class { name: name.to_string(), mode: StreamingMode::NonStreaming }
}

#[test]
fn a_lenient_reader_is_asked_for_the_whole_name_of_a_type() {
    let mut point = object(PyKind::Other, "Point");
    point.lenient = vec![
        (class_type("a::Point"), BamlValue::Int(1)),
        (class_type("b::Point"), BamlValue::Int(2)),
        (TypeIr::List(Box::new(class_type("b::Point"))), BamlValue::Int(3)),
        (
            TypeIr::MapOf(
                Box::new(TypeIr::Primitive(Primitive::Text)),
                Box::new(class_type("b::Point")),
            ),
            BamlValue::Int(4),
        ),
    ];
    let read = |t: TypeIr| py_to_baml_value(&point, &t, &no_types());
    assert!(matches!(read(class_type("a::Point")), Ok(BamlValue::Int(1))));
    assert!(matches!(read(class_type("b::Point")), Ok(BamlValue::Int(2))));
    let streamed =
        TypeIr::Class { name: "b::Point".to_string(), mode: StreamingMode::Streaming };
    assert!(matches!(read(streamed), Ok(BamlValue::Int(2))));
    let points = TypeIr::List(Box::new(class_type("b::Point")));
    assert!(matches!(read(points), Ok(BamlValue::Int(3))));
    let by_name = TypeIr::MapOf(
        Box::new(TypeIr::Primitive(Primitive::Text)),
        Box::new(class_type("b::Point")),
    );
    assert!(matches!(read(by_name), Ok(BamlValue::Int(4))));
    match read(TypeIr::List(Box::new(class_type("a::Point")))) {
        Err(BamlParseError::Convert(err)) => assert_eq!(err.message, "expected list[Point]"),
        end => panic!("unexpected end: {end:?}"),
    }
}

#[test]
fn kwargs_to_baml_value_validates_typed_fields() {
    let kwargs = kwargs(vec![("answer", py_text("done")), ("score", py_float(0.85))]);
    let converted =
        kwargs_to_baml_value(&bridge_fields(), &no_types(), &kwargs).expect("convert kwargs");
    let fields = match converted {
        BamlValue::Class(_, fields) => fields,
        BamlValue::Dict(fields) => fields,
        other => panic!("expected named fields, got: {other:?}"),
    };
    assert_eq!(fields[0].0, "answer");
    assert!(matches!(&fields[0].1, BamlValue::Text(t) if t == "done"));
    assert_eq!(fields[1].0, "score");
    assert!(matches!(fields[1].1, BamlValue::Float(bits) if f64::from_bits(bits) == 0.85));
}

#[test]
fn kwargs_to_baml_value_reports_type_error_context() {
    let kwargs = kwargs(vec![("answer", py_text("done")), ("score", py_text("oops"))]);
    let err = kwargs_to_baml_value(&bridge_fields(), &no_types(), &kwargs)
        .expect_err("should fail");
    match err {
        BamlParseError::Convert(err) => {
            assert_eq!(err.path.first().map(|s| s.as_str()), Some("score"));
        }
        other => panic!("unexpected error: {other:?}"),
    }
}

#[test]
fn collect_checks_for_output_reports_assert_failures() {
    let value = BamlValue::Dict(vec![("score".to_string(), BamlValue::Int(-1))]);
    let err = collect_checks_for_output(&assert_fields(), &value, "", &failed_positive())
        .expect_err("assert should fail");
    match err {
        BamlParseError::ConstraintAssertsFailed { failed } => {
            assert_eq!(failed.len(), 1);
            assert_eq!(failed[0].name, "positive");
        }
        other => panic!("unexpected error: {other:?}"),
    }
}

#[test]
fn checks_of_an_output_are_reported_or_refused() {
    let report = ResponseCheck {
        name: "non_negative".to_string(),
        expression: "this >= 0.0".to_string(),
        status: "failed".to_string(),
    };
    let results = vec![
        vec![],
        vec![CheckOutcome {
            is_assert: false,
            label: Some("non_negative".to_string()),
            expression: "this >= 0.0".to_string(),
            ok: false,
            report: Some(report),
        }],
    ];
    let value = BamlValue::Dict(vec![
        ("answer".to_string(), BamlValue::Text("x".to_string())),
        ("score".to_string(), BamlValue::Float((-1f64).to_bits())),
    ]);
    let checks = collect_checks_for_output(&bridge_fields(), &value, "", &results)
        .expect("checks refuse nothing");
    assert_eq!(checks.len(), 1);
    assert_eq!(checks[0].status, "failed");
    match collect_checks_for_output(&bridge_fields(), &BamlValue::Int(3), "3", &results) {
        Err(BamlParseError::Convert(err)) => {
            assert_eq!(err.expected, "object");
            assert_eq!(err.got, "3");
        }
        other => panic!("expected a refusal, got: {other:?}"),
    }
}

#[test]
fn union_attempts_do_not_leak_path_segments_between_branches() {
    let mut list = object(PyKind::List, "list");
    list.items = vec![py_int(3)];
    let literal = |n: i64| TypeIr::Literal {
        value: LiteralValue::Int(n),
        shown: format!("{n}"),
    };
    let union = TypeIr::Union {
        options: vec![
            TypeIr::List(Box::new(literal(1))),
            TypeIr::List(Box::new(literal(2))),
        ],
        nullable: false,
    };

    let err = py_to_baml_value(&list, &union, &no_types())
        .expect_err("union should fail to parse mismatched literal");
    match err {
        BamlParseError::Convert(err) => {
            assert_eq!(
                err.path,
                vec!["0".to_string()],
                "path should represent one nesting level, not accumulate from prior union attempts"
            );
        }
        other => panic!("unexpected error: {other:?}"),
    }
}

#[test]
fn sanitize_signature_removes_python_self_variants() {
    assert_eq!(
        sanitize_signature("($self, path_fragment)"),
        "(path_fragment)"
    );
    assert_eq!(
        sanitize_signature("($self, /, path_fragment)"),
        "(path_fragment)"
    );
    assert_eq!(
        sanitize_signature("(self, /, path_fragment)"),
        "(path_fragment)"
    );
    assert_eq!(sanitize_signature("($self, /)"), "()");
}

#[test]
fn sanitize_signature_simplifies_qualified_type_paths() {
    let raw = "(query: builtins.str, other: tanha.types.Sessions) -> tanha.types.Sessions";
    let sanitized = sanitize_signature(raw);
    assert!(!sanitized.contains("builtins."));
    assert!(!sanitized.contains("tanha.types."));
    assert!(sanitized.contains("str"));
    assert!(sanitized.contains("Sessions"));
}

fn method(name: &str, doc: Option<&str>, signature: Option<&str>) -> RawMethod {
    RawMethod {
        name: name.to_string(),
        doc: doc.map(|d| d.to_string()),
        text_signature: signature.map(|s| s.to_string()),
        inspected_signature: None,
        own_signature: None,
    }
}

fn py_class(name: &str, members: Vec<RawMethod>) -> PyClass {
    PyClass {
        name: Some(name.to_string()),
        module: Some("builtins".to_string()),
        members: Ok(members),
    }
}

fn graph_object(kind: PyKind, class: usize, items: Vec<usize>) -> GraphObject {
    GraphObject {
        kind,
        class,
        callable: false,
        items,
        entries: vec![],
        own_values: vec![],
        class_attributes: vec![],
        annotations: vec![],
        fields: vec![],
    }
}

fn fixture_members() -> Vec<RawMethod> {
    vec![
        method("undocumented", None, Some("($self, /)")),
        method("search", Some("Search entries by query text."), Some("(query)")),
        method(
            "__len__",
            Some("Return the character count for this fixture label."),
            Some("($self, /)"),
        ),
        method("__baml__", None, Some("($self, /)")),
    ]
}

fn setup(
    graph: &PyGraph,
    inputs: Vec<(&str, Option<usize>)>,
    format: &OutputFormat,
    subclasses: Vec<(&str, usize)>,
) -> Result<InterpreterSetup, String> {
    let inputs: Vec<(String, Option<usize>)> =
        inputs.into_iter().map(|(name, id)| (name.to_string(), id)).collect();
    let subclasses: Vec<(String, usize)> =
        subclasses.into_iter().map(|(name, id)| (name.to_string(), id)).collect();
    let survey = begin_interpreter_setup(graph, &inputs)?;
    finish_interpreter_setup(graph, format, survey, &vec![], &subclasses)
}

fn methods_of<'a>(
    by_name: &'a Vec<(String, Vec<MethodSignature>)>,
    name: &str,
) -> Option<&'a Vec<MethodSignature>> {
    by_name.iter().find(|(n, _)| n == name).map(|(_, methods)| methods)
}

fn bridge_graph() -> PyGraph {
    PyGraph {
        classes: vec![
            py_class("str", vec![method("upper", Some("Upper case."), Some("($self, /)"))]),
            py_class("int", vec![method("bit_length", Some("Bits."), Some("($self, /)"))]),
        ],
        objects: vec![
            graph_object(PyKind::Text, 0, vec![]),
            graph_object(PyKind::Int, 1, vec![]),
        ],
    }
}

fn bridge_inputs() -> Vec<(String, Option<usize>)> {
    vec![("question".to_string(), Some(0)), ("count".to_string(), Some(1))]
}

#[test]
fn setup_interpreter_globals_injects_inputs_and_tools() {
    let setup = setup(
        &bridge_graph(),
        vec![("question", Some(0)), ("count", Some(1))],
        &no_types(),
        vec![],
    )
    .expect("setup globals");
    let globals = global_names(&bridge_inputs(), true);

    assert!(globals.iter().any(|name| name == "question"));
    assert!(globals.iter().any(|name| name == "count"));
    assert!(globals.iter().any(|name| name == "llm_query"));
    assert!(globals.iter().any(|name| name == "llm_query_batched"));
    assert!(globals.iter().any(|name| name == "SUBMIT"));
    assert!(methods_of(&setup.methods_by_var, "question").is_some());
    assert!(methods_of(&setup.methods_by_var, "count").is_some());
    assert!(methods_of(&setup.methods_by_type, "str").is_some());
    assert!(methods_of(&setup.methods_by_type, "int").is_some());
}

#[test]
fn setup_interpreter_globals_without_sub_lm_tools_still_injects_submit_and_inputs() {
    let setup = setup(
        &bridge_graph(),
        vec![("question", Some(0)), ("count", Some(1))],
        &no_types(),
        vec![],
    )
    .expect("setup globals");
    let globals = global_names(&bridge_inputs(), false);

    assert!(globals.iter().any(|name| name == "question"));
    assert!(globals.iter().any(|name| name == "count"));
    assert!(globals.iter().any(|name| name == "SUBMIT"));
    assert!(!globals.iter().any(|name| name == "llm_query"));
    assert!(!globals.iter().any(|name| name == "llm_query_batched"));
    assert!(methods_of(&setup.methods_by_var, "question").is_some());
    assert!(methods_of(&setup.methods_by_var, "count").is_some());
    assert!(methods_of(&setup.methods_by_type, "str").is_some());
    assert!(methods_of(&setup.methods_by_type, "int").is_some());
}

#[test]
fn setup_interpreter_globals_rejects_reserved_input_names() {
    let graph = PyGraph {
        classes: vec![py_class("str", vec![])],
        objects: vec![graph_object(PyKind::Text, 0, vec![])],
    };
    let message = setup(&graph, vec![("llm_query", Some(0))], &no_types(), vec![])
        .expect_err("reserved input names should fail setup");
    assert!(message.contains("llm_query"));
    assert!(message.contains("reserved runtime binding"));
}

#[test]
fn setup_interpreter_globals_collects_filtered_method_metadata() {
    let graph = PyGraph {
        classes: vec![py_class("MethodFixture", fixture_members())],
        objects: vec![graph_object(PyKind::Other, 0, vec![])],
    };
    let setup = setup(&graph, vec![("trajectory", Some(0))], &no_types(), vec![])
        .expect("setup globals");
    let methods = methods_of(&setup.methods_by_var, "trajectory").expect("trajectory methods");
    let type_methods =
        methods_of(&setup.methods_by_type, "MethodFixture").expect("MethodFixture methods");

    assert_eq!(
        setup.methods_by_var.iter().map(|(name, _)| name).collect::<Vec<_>>(),
        vec![&"trajectory".to_string()],
        "keys must match injected variable names"
    );
    assert!(
        methods.windows(2).all(|w| w[0].name <= w[1].name),
        "method list should be deterministic and sorted by name"
    );
    assert!(methods.iter().any(|m| m.name == "search"));
    assert!(methods.iter().any(|m| m.name == "__len__"));
    assert!(methods.iter().any(|m| m.name == "undocumented"));
    assert!(!methods.iter().any(|m| m.name == "__baml__"));
    assert!(type_methods.iter().any(|m| m.name == "search"));

    let search = methods
        .iter()
        .find(|m| m.name == "search")
        .expect("search method metadata");
    assert!(search.signature.contains("query"));
    assert!(!search.signature.contains("self"));
    assert!(search.doc.contains("Search entries"));
    assert!(matches!(search.source, MethodSource::Custom));
    assert!(!search.is_dunder);

    let undocumented = methods
        .iter()
        .find(|m| m.name == "undocumented")
        .expect("undocumented method metadata");
    assert!(undocumented.doc.is_empty());
    assert!(matches!(undocumented.source, MethodSource::Custom));
    assert!(!undocumented.is_dunder);

    let dunder_len = methods
        .iter()
        .find(|m| m.name == "__len__")
        .expect("__len__ metadata");
    assert!(dunder_len.is_dunder);
    assert!(matches!(dunder_len.source, MethodSource::Generated));
    assert!(!dunder_len.doc.trim().is_empty());
}

#[test]
fn setup_interpreter_globals_collects_reachable_nested_type_methods() {
    let graph = PyGraph {
        classes: vec![
            py_class("list", vec![]),
            py_class("MethodFixture", fixture_members()),
        ],
        objects: vec![
            graph_object(PyKind::List, 0, vec![1]),
            graph_object(PyKind::Other, 1, vec![]),
        ],
    };
    let setup = setup(&graph, vec![("trajectories", Some(0))], &no_types(), vec![])
        .expect("setup globals");
    let nested_type_methods =
        methods_of(&setup.methods_by_type, "MethodFixture").expect("nested MethodFixture methods");
    assert!(
        nested_type_methods.iter().any(|m| m.name == "search"),
        "nested type methods should include custom MethodFixture methods"
    );
}

fn class_def(name: &str, fields: Vec<(&str, TypeIr)>) -> ClassDef {
    let both = |s: &str| Name { real: s.to_string(), rendered: s.to_string() };
    ClassDef {
        raw_name: name.to_string(),
        mode: StreamingMode::NonStreaming,
        name: both(name),
        fields: fields
            .into_iter()
            .map(|(field, type_ir)| ClassField { name: both(field), type_ir, description: None })
            .collect(),
    }
}

#[test]
fn setup_interpreter_globals_collects_schema_nested_type_methods_without_runtime_instance() {
    let graph = PyGraph {
        classes: vec![
            py_class("NoAnnotationsContainer", vec![]),
            py_class(
                "NoAnnotationsChild",
                vec![method(
                    "thread",
                    Some("Thread view for this child fixture."),
                    Some("(participants)"),
                )],
            ),
            py_class("list", vec![]),
        ],
        objects: vec![
            graph_object(PyKind::Other, 0, vec![]),
            graph_object(PyKind::List, 2, vec![]),
        ],
    };
    let child = TypeIr::Class {
        name: "NoAnnotationsChild".to_string(),
        mode: StreamingMode::NonStreaming,
    };
    let mut format = no_types();
    format.classes = vec![
        class_def("NoAnnotationsContainer", vec![("items", TypeIr::List(Box::new(child)))]),
        class_def(
            "NoAnnotationsChild",
            vec![("label", TypeIr::Primitive(Primitive::Text))],
        ),
    ];
    let setup = setup(
        &graph,
        vec![("container", Some(0))],
        &format,
        vec![("NoAnnotationsChild", 1)],
    )
    .expect("setup globals");
    let nested_methods = methods_of(&setup.methods_by_type, "NoAnnotationsChild")
        .expect("nested schema type methods");
    assert!(
        nested_methods.iter().any(|m| m.name == "thread"),
        "schema-driven class lookup should collect nested type methods even when the input graph has no nested instances"
    );
}

#[test]
fn schema_classes_that_are_nowhere_have_no_methods() {
    let graph = PyGraph {
        classes: vec![py_class("str", vec![])],
        objects: vec![graph_object(PyKind::Text, 0, vec![])],
    };
    let mut format = no_types();
    format.classes = vec![class_def("Lost", vec![])];
    let setup = setup(&graph, vec![("question", Some(0))], &format, vec![])
        .expect("setup globals");
    assert_eq!(methods_of(&setup.methods_by_type, "Lost").map(|m| m.len()), Some(0));
}

#[test]
fn methods_are_listed_once_and_in_order() {
    let methods = collect_visible_methods(&vec![
        method("b", Some("B."), Some("($self, /)")),
        method("a", Some("A."), Some("($self, /)")),
        method("b", Some("B."), Some("($self, /)")),
        method("__repr__", Some("R."), Some("($self, /)")),
    ]);
    assert_eq!(
        methods.iter().map(|m| m.name.as_str()).collect::<Vec<_>>(),
        vec!["a", "b"]
    );
}

#[test]
fn errors_name_types_by_their_own_names() {
    let mut format = no_types();
    format.enums.push(EnumDef {
        raw_name: "crate::Color".to_string(),
        name: Name { real: "crate::Color".to_string(), rendered: "Colour".to_string() },
        values: vec![Name { real: "Red".to_string(), rendered: "red".to_string() }],
    });
    let color = TypeIr::Enum { name: "crate::Color".to_string() };
    assert!(py_to_baml_value(&py_text("red"), &color, &format).is_ok());
    match py_to_baml_value(&py_text("blue"), &color, &format) {
        Err(BamlParseError::Convert(err)) => assert_eq!(err.message, "expected Color"),
        other => panic!("expected a mismatch, got: {other:?}"),
    }
}

#[test]
fn texts_that_cannot_be_read_are_refused_before_a_missing_alias() {
    let alias = TypeIr::Alias { name: "Tree".to_string() };
    match py_to_baml_value(&py_text("plain"), &alias, &no_types()) {
        Err(BamlParseError::Jsonish(why)) => assert_eq!(why, "missing recursive alias Tree"),
        other => panic!("expected an error, got: {other:?}"),
    }
    let mut broken = py_text("plain");
    broken.text = Err("surrogates not allowed".to_string());
    match py_to_baml_value(&broken, &alias, &no_types()) {
        Err(BamlParseError::Jsonish(why)) => assert_eq!(why, "surrogates not allowed"),
        other => panic!("expected an error, got: {other:?}"),
    }
}

fn submit_fields() -> Vec<FieldSchema> {
    vec![
        field("answer", Primitive::Text, "string"),
        field("score", Primitive::Float, "float"),
    ]
}

#[test]
fn submit_success_writes_slot_and_raises_terminated() {
    let (handler, mut slot) = SubmitHandler::with_new_slot(submit_fields(), no_types());
    let kwargs = kwargs(vec![("answer", py_text("ok")), ("score", py_float(0.9))]);

    let value = match handler.call(Some(&kwargs), &mut slot) {
        SubmitStep::Check(value) => value,
        other => panic!("expected an output, got: {other:?}"),
    };
    let reply = handler.conclude(
        &kwargs,
        Ok((value, vec![])),
        "{\"answer\":\"ok\",\"score\":0.9}".to_string(),
        &mut slot,
    );
    assert!(matches!(reply, SubmitReply::Terminated(ref t) if t == "SUBMIT accepted"));

    let stored = take_submit_result(&mut slot).expect("slot must be populated");
    let (_, metas) = stored.expect("accepted");
    let root = metas.get("_root").expect("root metadata");
    assert_eq!(root.raw_text, "{\"answer\":\"ok\",\"score\":0.9}");
    assert!(take_submit_result(&mut slot).is_none());
}

#[test]
fn missing_field_returns_validation_error() {
    let (handler, mut slot) = SubmitHandler::with_new_slot(submit_fields(), no_types());
    let kwargs = kwargs(vec![("answer", py_text("ok"))]);

    let message = match handler.call(Some(&kwargs), &mut slot) {
        SubmitStep::Reply(SubmitReply::Text(message)) => message,
        other => panic!("missing field should return recoverable message, got: {other:?}"),
    };
    assert!(message.contains("SubmitError: Validation failed"));

    match take_submit_result(&mut slot).expect("slot must be populated") {
        Err(SubmitError::ValidationError { errors, .. }) => {
            assert!(errors.iter().any(|err| err.contains("missing fields")));
        }
        other => panic!("unexpected stored result: {other:?}"),
    }
}

#[test]
fn type_mismatch_returns_detailed_field_error() {
    let (handler, mut slot) = SubmitHandler::with_new_slot(submit_fields(), no_types());
    let kwargs = kwargs(vec![("answer", py_text("ok")), ("score", py_text("oops"))]);

    let err = match handler.call(Some(&kwargs), &mut slot) {
        SubmitStep::Refuse(err) => err,
        other => panic!("type mismatch should be refused, got: {other:?}"),
    };
    let message = match handler.conclude(&kwargs, Err(err), "no float".to_string(), &mut slot) {
        SubmitReply::Text(message) => message,
        other => panic!("type mismatch should be recoverable, got: {other:?}"),
    };
    assert!(message.contains("field 'score'"));
    assert!(message.contains("expected"));
    assert!(message.contains("got"));

    let stored = take_submit_result(&mut slot).expect("slot must be populated");
    assert!(matches!(
        stored,
        Err(SubmitError::ValidationError { ref message, .. }) if message == "no float"
    ));
}

#[test]
fn assertion_failure_is_recorded() {
    let (handler, mut slot) = SubmitHandler::with_new_slot(assert_fields(), no_types());
    let kwargs = kwargs(vec![("score", py_int(-1))]);

    let value = match handler.call(Some(&kwargs), &mut slot) {
        SubmitStep::Check(value) => value,
        other => panic!("expected an output, got: {other:?}"),
    };
    let checked = collect_checks_for_output(&assert_fields(), &value, "", &failed_positive());
    let parsed = checked.map(|checks| (value, checks));
    let message = match handler.conclude(&kwargs, parsed, String::new(), &mut slot) {
        SubmitReply::Text(message) => message,
        other => panic!("assertion failure should be recoverable, got: {other:?}"),
    };
    assert!(message.contains("SubmitError: Assertion failed"));

    match take_submit_result(&mut slot).expect("slot must be populated") {
        Err(SubmitError::AssertionFailed { label, .. }) => {
            assert_eq!(label, "positive");
        }
        other => panic!("unexpected stored result: {other:?}"),
    }
}

#[test]
fn clear_submit_slot_removes_previous_value() {
    let mut slot = SubmitSlot::new();
    slot.stored = Some(Err(SubmitError::ValidationError {
        message: "x".to_string(),
        errors: vec!["y".to_string()],
    }));

    clear_submit_slot(&mut slot);
    assert!(slot.stored.is_none());
}

#[test]
fn calls_without_keywords_or_with_unknown_ones_are_refused() {
    let (handler, mut slot) = SubmitHandler::with_new_slot(submit_fields(), no_types());
    match handler.call(None, &mut slot) {
        SubmitStep::Reply(SubmitReply::ValueError(message)) => {
            assert!(message.contains("SUBMIT requires keyword arguments"))
        }
        other => panic!("expected an error, got: {other:?}"),
    }
    assert!(slot.stored.is_none());
    let kwargs = kwargs(vec![
        ("answer", py_text("ok")),
        ("score", py_float(0.9)),
        ("extra", py_int(1)),
    ]);
    match handler.call(Some(&kwargs), &mut slot) {
        SubmitStep::Reply(SubmitReply::Text(message)) => {
            assert!(message.contains("unexpected fields: [\"extra\"]"))
        }
        other => panic!("expected a message, got: {other:?}"),
    }
    match take_submit_result(&mut slot) {
        Some(Err(SubmitError::ValidationError { message, .. })) => {
            assert_eq!(message, "Unexpected output fields")
        }
        other => panic!("unexpected stored result: {other:?}"),
    }
}

#[test]
fn fields_that_were_not_handed_in_are_listed() {
    let kwargs = kwargs(vec![("score", py_float(0.9))]);
    assert_eq!(missing_output_fields(&submit_fields(), &kwargs), vec!["answer".to_string()]);
}

#[test]
fn plain_forms_are_taken_in_order() {
    let offers = PlainOffers {
        model_dump: false,
        dict_method: true,
        as_dict: true,
        dataclass: false,
        attrs: false,
        attributes: true,
    };
    assert_eq!(normalize_python_object(PyKind::Other, offers), PlainForm::DictMethod);
    assert_eq!(normalize_python_object(PyKind::Dict, offers), PlainForm::Itself);
}
