//! The instructions of the models, and the previews of input variables.

use dspy_rs::modules::rlm::previews::{render_previews, render_type_shape};
use dspy_rs::modules::rlm::prompt::{render_action_instruction, render_extract_instruction};
use dspy_rs::modules::rlm::runtime::{MethodSignature, MethodSource};
use dspy_rs::modules::rlm::types::{
    type_label, ClassDef, ClassField, Constraint, ConstraintKind, EnumDef, FieldSchema, Name,
    OutputFormat, Primitive, SignatureSchema, StreamingMode, TypeIr,
};

fn name(s: &str) -> Name {
    Name { real: s.to_string(), rendered: s.to_string() }
}

fn text_type() -> TypeIr {
    TypeIr::Primitive(Primitive::Text)
}

fn optional(inner: TypeIr) -> TypeIr {
    TypeIr::Union { options: vec![inner], nullable: true }
}

fn list(inner: TypeIr) -> TypeIr {
    TypeIr::List(Box::new(inner))
}

fn class(name: &str) -> TypeIr {
    TypeIr::Class { name: name.to_string(), mode: StreamingMode::NonStreaming }
}

fn class_def(class_name: &str, fields: Vec<(&str, TypeIr, &str)>) -> ClassDef {
    ClassDef {
        raw_name: class_name.to_string(),
        mode: StreamingMode::NonStreaming,
        name: name(class_name),
        fields: fields
            .into_iter()
            .map(|(field, type_ir, docs)| ClassField {
                name: name(field),
                type_ir,
                description: Some(docs.to_string()),
            })
            .collect(),
    }
}

fn field(rust_name: &str, docs: &str, type_ir: TypeIr, type_repr: &str) -> FieldSchema {
    FieldSchema {
        rust_name: rust_name.to_string(),
        lm_name: rust_name.to_string(),
        docs: docs.to_string(),
        type_ir,
        type_repr: type_repr.to_string(),
        constraints: vec![],
    }
}

fn format_of(classes: Vec<ClassDef>, enums: Vec<EnumDef>) -> OutputFormat {
    OutputFormat { target: text_type(), classes, enums, aliases: vec![] }
}

fn prompt_schema() -> SignatureSchema {
    let mut answer = field("answer", "", text_type(), "string");
    answer.constraints.push(Constraint {
        kind: ConstraintKind::Assert,
        label: "non_empty".to_string(),
        expression: "this.len() > 0".to_string(),
    });
    SignatureSchema {
        instruction: "Solve the query against the corpus.".to_string(),
        input_fields: vec![
            field("papers", "", list(text_type()), "list[string]"),
            field("question", "", text_type(), "string"),
        ],
        output_fields: vec![answer],
        output_format: format_of(vec![], vec![]),
    }
}

fn output_format_schema() -> SignatureSchema {
    SignatureSchema {
        instruction: String::new(),
        input_fields: vec![field("question", "", text_type(), "string")],
        output_fields: vec![
            field("tags", "", list(text_type()), "list[string]"),
            field(
                "mode",
                "",
                TypeIr::Enum { name: "FailureMode".to_string() },
                "FailureMode",
            ),
            field(
                "notes",
                "Line one.\n- top bullet\n  - nested bullet",
                text_type(),
                "string",
            ),
        ],
        output_format: format_of(
            vec![],
            vec![EnumDef {
                raw_name: "FailureMode".to_string(),
                name: name("FailureMode"),
                values: vec![name("Ignorance"), name("DiscoveryFailure")],
            }],
        ),
    }
}

#[test]
fn primitive_inputs_are_skipped() {
    let fields = vec![
        field("title", "", text_type(), "string"),
        field("count", "", TypeIr::Primitive(Primitive::Int), "int"),
    ];
    let rendered = render_previews(&fields, &format_of(vec![], vec![]), &vec![]);
    assert!(rendered.contains("(No complex input variables.)"));
}

#[test]
fn schema_rendering_has_methods_shape_comments_and_nested_lists() {
    let format = format_of(
        vec![
            class_def(
                "PreviewAction",
                vec![
                    ("name", text_type(), "Tool name."),
                    ("arguments", text_type(), "JSON arguments."),
                    ("result", optional(text_type()), "Tool output."),
                    (
                        "is_error",
                        TypeIr::Primitive(Primitive::Bool),
                        "True if the tool errored.",
                    ),
                ],
            ),
            class_def(
                "PreviewTurn",
                vec![
                    ("trigger", optional(text_type()), "User message that started this turn."),
                    ("actions", list(class("PreviewAction")), "Tool actions in this turn."),
                ],
            ),
            class_def(
                "PreviewSession",
                vec![
                    ("brief", optional(text_type()), "First user message, truncated."),
                    ("turns", list(class("PreviewTurn")), "Turn sequence."),
                ],
            ),
            class_def(
                "PreviewSessions",
                vec![("items", list(class("PreviewSession")), "Stored sessions.")],
            ),
        ],
        vec![],
    );
    let fields = vec![field(
        "sessions",
        "Turn-level trajectories for each development session.",
        class("PreviewSessions"),
        "PreviewSessions",
    )];
    let methods = vec![(
        "sessions".to_string(),
        vec![
            MethodSignature {
                name: "search".to_string(),
                signature: "(query)".to_string(),
                doc: "Find matching sessions.".to_string(),
                source: MethodSource::Custom,
                is_dunder: false,
            },
            MethodSignature {
                name: "hidden".to_string(),
                signature: "()".to_string(),
                doc: "".to_string(),
                source: MethodSource::Custom,
                is_dunder: false,
            },
        ],
    )];

    let rendered = render_previews(&fields, &format, &methods);
    assert!(rendered.contains("Variable: `sessions` (access it in your code)"));
    assert!(rendered.contains("Type: PreviewSessions"));
    assert!(
        rendered.contains("Description: Turn-level trajectories for each development session.")
    );
    assert!(rendered.contains("// methods"));
    assert!(rendered.contains(".search(query) // Find matching sessions."));
    assert!(!rendered.contains(".hidden()"));
    assert!(rendered.contains("// shape"));
    assert!(rendered.contains("items: list[ // Stored sessions."));
    assert!(rendered.contains("brief: string | null // First user message, truncated."));
    assert!(rendered.contains("turns: list[ // Turn sequence."));
    assert!(rendered.contains("PreviewTurn {"));
    assert!(rendered.contains("actions: list[ // Tool actions in this turn."));
    assert!(rendered.contains("PreviewAction {"));
    assert!(rendered.contains("name: string // Tool name."));
    assert!(rendered.contains("arguments: string // JSON arguments."));
    assert!(rendered.contains("result: string | null // Tool output."));
    assert!(rendered.contains("is_error: bool // True if the tool errored."));
    assert!(rendered.contains("trigger: string | null // User message that started this turn."));
    assert!(!rendered.contains("Vec<"));
    assert!(!rendered.contains("String"));
    assert!(!rendered.contains("i64"));
    assert!(!rendered.contains("$self"));
}

#[test]
fn every_type_has_a_line_even_when_it_contains_itself() {
    let format = format_of(
        vec![class_def("Node", vec![("next", optional(class("Node")), "The next one.")])],
        vec![],
    );
    let lines = render_type_shape(&class("Node"), &format, 0);
    assert!(!lines.is_empty());
    assert!(lines[0].contains("Node"));
}

#[test]
fn labels_name_the_parts_of_a_type() {
    let format = format_of(vec![], vec![]);
    assert_eq!(type_label(&list(text_type()), &format), "list[string]");
    assert_eq!(type_label(&optional(text_type()), &format), "string | null");
}

#[test]
fn includes_new_core_sections() {
    let rendered = render_action_instruction(&prompt_schema(), None, "Variable: `papers`");

    assert!(rendered.contains("## Task"));
    assert!(rendered.contains("## Input Variables"));
    assert!(rendered.contains("## Output Schema"));
    assert!(rendered.contains("## Available Tools"));
    assert!(rendered.contains("## Guidelines"));
    assert!(rendered.contains("## Constraints"));
    assert!(rendered.contains("## Analysis Patterns"));
    assert!(rendered.contains("No markdown fences"));
    assert!(rendered.contains("SUBMIT safely for long answers"));
}

#[test]
fn system_message_sections_are_in_locked_order() {
    let rendered = render_action_instruction(&prompt_schema(), None, "Variable: `papers`");

    let idx_task = rendered.find("## Task").expect("task section");
    let idx_inputs = rendered
        .find("## Input Variables")
        .expect("input variables section");
    let idx_output = rendered
        .find("## Output Schema")
        .expect("output schema section");
    let idx_tools = rendered.find("## Available Tools").expect("tools section");
    let idx_guidelines = rendered.find("## Guidelines").expect("guidelines section");
    let idx_constraints = rendered
        .find("## Constraints")
        .expect("constraints section");
    let idx_patterns = rendered
        .find("## Analysis Patterns")
        .expect("patterns section");

    assert!(idx_task < idx_inputs);
    assert!(idx_inputs < idx_output);
    assert!(idx_output < idx_tools);
    assert!(idx_tools < idx_guidelines);
    assert!(idx_guidelines < idx_constraints);
    assert!(idx_constraints < idx_patterns);
}

#[test]
fn extract_instruction_includes_task_and_extraction_guidance() {
    let rendered = render_extract_instruction(&prompt_schema(), None);

    assert!(rendered.contains(&format!(
        "The following REPL session was generated for this {}:",
        "task"
    )));
    assert!(rendered.contains("Solve the query against the corpus."));
    assert!(rendered.contains("Based on the execution history, extract the final outputs."));
}

#[test]
fn an_override_replaces_the_task() {
    let rendered = render_extract_instruction(&prompt_schema(), Some("Count the papers."));
    assert!(rendered.contains("Count the papers."));
    assert!(!rendered.contains("Solve the query against the corpus."));
}

#[test]
fn output_section_skips_schema_for_simple_list_and_enum_and_shows_enum_values() {
    let rendered = render_action_instruction(&output_format_schema(), None, "");

    let tags_block = rendered
        .split("1. `tags` (list[string])")
        .nth(1)
        .and_then(|tail| tail.split("2. `mode` (FailureMode)").next())
        .expect("tags block");
    assert!(!tags_block.contains("Schema:"));

    let mode_block = rendered
        .split("2. `mode` (FailureMode)")
        .nth(1)
        .and_then(|tail| tail.split("3. `notes` (string)").next())
        .expect("mode block");
    assert!(!mode_block.contains("Schema:"));
    assert!(mode_block.contains("Valid values: Ignorance | DiscoveryFailure"));
}

#[test]
fn output_docstrings_preserve_leading_whitespace() {
    let rendered = render_action_instruction(&output_format_schema(), None, "");
    assert!(rendered.contains("   - top bullet"));
    assert!(rendered.contains("- nested bullet"));
}
