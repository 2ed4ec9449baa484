//! The instructions that the acting and the extracting model are given.

use vstd::prelude::*;

use crate::modules::rlm::previews;
use crate::modules::rlm::types;
use crate::modules::rlm::types::{Constraint, ConstraintKind, FieldSchema, OutputFormat, SignatureSchema, TypeIr};
use crate::text;
use crate::text_laws;

verus! {

/// Compositions and mistakes that every instruction ends with.
pub const PATTERNS_BLOCK: &'static str = r#"## Analysis Patterns

llm_query handles meaning. string operations handle structure.
combine them freely. here are common compositions:

# Semantic filter
# batch queries work best on focused, pre-filtered sets.
# narrow with .search() first, then batch-analyze the results.
relevant = [x for x, r in zip(items, llm_query_batched(
    [f"Is {x.label} about {topic}? yes/no" for x in items[:5]]
)) if 'yes' in r.lower()]

# Chain
findings = llm_query_batched([f"Key finding: {x}" for x in relevant])
answer = llm_query(f"Synthesize:\n" + "\n---\n".join(findings))

# Map-reduce
chunks = [text[i:i+2000] for i in range(0, len(text), 2000)]
parts = llm_query_batched([f"Summarize: {c}" for c in chunks])
summary = llm_query(f"Combine:\n" + "\n".join(parts))

# Direct
quick_answer = llm_query(f"Answer directly: {question}")

# SUBMIT safely for long answers
# Build long strings via variables first to avoid unterminated triple-quote/parens errors.
direct_answer = (
    "Line 1...\n"
    "Line 2..."
)
key_findings = (
    "1. First finding...\n"
    "2. Second finding..."
)

SUBMIT(direct_answer=direct_answer, key_findings=key_findings)

## Common Mistakes
# DON'T read everything then reason:
for s in sessions:
    print(s.render())  # you just burned your entire context

# DON'T use regex when llm_query is better:
matches = [s for s in sessions if re.search(r'auth.*fail', s.render())]
# this misses "authentication broke" and "login stopped working"

# DO delegate understanding:
relevant = llm_query_batched([
    f"does this session discuss auth failures? yes/no\n{s.render()[:3000]}"
    for s in sessions
])

# DO accumulate understanding across turns:
findings = []
findings.append(f"session 3: {observation}")
findings.append(f"session 7 contradicts: {counter}")"#;

/// The task: the instruction that was set, else that of the signature.
pub open spec fn task_text(schema: SignatureSchema, instruction_override: Option<Seq<char>>) -> Seq<
    char,
> {
    text::trim(
        match instruction_override {
            Some(t) => t,
            None => schema.instruction@,
        },
    )
}

pub open spec fn override_view(t: Option<&str>) -> Option<Seq<char>> {
    match t {
        Some(t) => Some(t@),
        None => None,
    }
}

pub fn task_of(schema: &SignatureSchema, instruction_override: Option<&str>) -> (r: String)
    ensures
        r@ == task_text(*schema, override_view(instruction_override)),
{
    match instruction_override {
        Some(t) => text::trim_str(t),
        None => text::trim_str(schema.instruction.as_str()),
    }
}

/// Lines without the blank ones at the start.
pub open spec fn drop_blank_start(lines: Seq<Seq<char>>) -> Seq<Seq<char>>
    decreases lines.len(),
{
    if lines.len() > 0 && text::is_blank(lines[0]) {
        drop_blank_start(lines.skip(1))
    } else {
        lines
    }
}

/// Lines without the blank ones at the end.
pub open spec fn drop_blank_end(lines: Seq<Seq<char>>) -> Seq<Seq<char>>
    decreases lines.len(),
{
    if lines.len() > 0 && text::is_blank(lines.last()) {
        drop_blank_end(lines.drop_last())
    } else {
        lines
    }
}

/// The lines of a description, without white space behind them.
pub open spec fn right_trimmed(lines: Seq<Seq<char>>) -> Seq<Seq<char>> {
    Seq::new(lines.len(), |i: int| text::trim_end(lines[i]))
}

/// The lines of a description, without blank ones around them.
pub open spec fn doc_lines(docs: Seq<char>) -> Seq<Seq<char>> {
    drop_blank_end(drop_blank_start(right_trimmed(text::lines(docs))))
}

fn doc_lines_of(docs: &str) -> (r: Vec<String>)
    ensures
        text::views(r@) == doc_lines(docs@),
{
    let raw = text::lines_of(docs);
    let mut lines: Vec<String> = Vec::new();
    let mut i: usize = 0;
    while i < raw.len()
        invariant
            i <= raw@.len(),
            lines@.len() == i,
            forall|k: int| 0 <= k < i ==> (#[trigger] lines@[k])@ == text::trim_end(raw@[k]@),
        decreases raw@.len() - i,
    {
        lines.push(text::trim_end_str(raw[i].as_str()));
        i += 1;
    }
    let ghost all = right_trimmed(text::lines(docs@));
    proof {
        assert(text::views(lines@) =~= all);
    }
    let mut start: usize = 0;
    let n = lines.len();
    proof {
        assert(text::views(lines@).skip(0) =~= all);
    }
    while start < n && text::blank(lines[start].as_str())
        invariant
            start <= n,
            n == lines@.len(),
            text::views(lines@) == all,
            drop_blank_start(all.skip(start as int)) == drop_blank_start(all),
        decreases n - start,
    {
        proof {
            assert(all.skip(start as int)[0] == lines@[start as int]@);
            assert(all.skip(start as int).skip(1) =~= all.skip(start + 1));
        }
        start += 1;
    }
    let ghost kept = all.skip(start as int);
    proof {
        if start < n {
            assert(kept[0] == lines@[start as int]@);
        }
        assert(kept == drop_blank_start(all));
    }
    let mut out = lines.split_off(start);
    proof {
        assert(text::views(out@) =~= kept);
    }
    while out.len() > 0 && text::blank(out[out.len() - 1].as_str())
        invariant
            drop_blank_end(text::views(out@)) == drop_blank_end(kept),
        decreases out@.len(),
    {
        let ghost before = out@;
        proof {
            assert(text::views(before).last() == before.last()@);
        }
        out.pop();
        proof {
            assert(text::views(out@) =~= text::views(before).drop_last());
        }
    }
    proof {
        let v = text::views(out@);
        if v.len() > 0 {
            assert(v.last() == out@.last()@);
        }
    }
    out
}

/// The values of an enum, itself or as an optional one.
pub open spec fn variants_text(t: TypeIr, f: OutputFormat) -> Option<Seq<char>> {
    match t.inner_type() {
        TypeIr::Enum { name } => {
            let i = f.enum_index(name@, 0);
            if 0 <= i < f.enums@.len() && f.enums@[i].values@.len() > 0 {
                let values = f.enums@[i].values@;
                Some(text::join(Seq::new(values.len(), |k: int| values[k].rendered@), " | "@))
            } else {
                None
            }
        },
        _ => None,
    }
}

fn enum_variants_line(t: &TypeIr, f: &OutputFormat) -> (r: Option<String>)
    ensures
        text::opt_view(r) == variants_text(*t, *f),
{
    let inner = match t.optional_inner() {
        Some(i) => i,
        None => t,
    };
    match inner {
        TypeIr::Enum { name } => match f.find_enum(name.as_str()) {
            Some(e) => {
                if e.values.len() == 0 {
                    return None;
                }
                let mut shown: Vec<String> = Vec::new();
                let mut i: usize = 0;
                while i < e.values.len()
                    invariant
                        i <= e.values@.len(),
                        shown@.len() == i,
                        forall|k: int|
                            0 <= k < i ==> (#[trigger] shown@[k])@ == e.values@[k].rendered@,
                    decreases e.values@.len() - i,
                {
                    shown.push(e.values[i].rendered.clone());
                    i += 1;
                }
                proof {
                    assert(text::views(shown@) =~= Seq::new(
                        e.values@.len(),
                        |k: int| e.values@[k].rendered@,
                    ));
                }
                Some(text::join_strs(&shown, " | "))
            },
            None => None,
        },
        _ => None,
    }
}

/// The type of an output needs no schema.
pub open spec fn simple_output(t: TypeIr) -> bool
    decreases t,
{
    match t {
        TypeIr::Union { options, nullable } => if nullable && options@.len() == 1 {
            simple_output(options@[0])
        } else {
            false
        },
        TypeIr::List(inner) => simple_output(*inner),
        TypeIr::Primitive(_) => true,
        TypeIr::Enum { .. } => true,
        TypeIr::Literal { .. } => true,
        TypeIr::Top { .. } => true,
        _ => false,
    }
}

fn is_simple_output_type(t: &TypeIr) -> (r: bool)
    ensures
        r == simple_output(*t),
    decreases t,
{
    match t {
        TypeIr::Union { options, nullable } => if *nullable && options.len() == 1 {
            is_simple_output_type(&options[0])
        } else {
            false
        },
        TypeIr::List(inner) => is_simple_output_type(inner),
        TypeIr::Primitive(_) => true,
        TypeIr::Enum { .. } => true,
        TypeIr::Literal { .. } => true,
        TypeIr::Top { .. } => true,
        _ => false,
    }
}

/// What stands before the description of an output field.
pub open spec fn output_head(field: FieldSchema, f: OutputFormat, number: nat) -> Seq<char> {
    text::decimal(number) + ". `"@ + field.lm_name@ + "` ("@ + types::label(field.type_ir, f) + ")"@
}

/// The lines of an output field: its description, its values, its schema, and an empty one.
pub open spec fn output_lines(field: FieldSchema, f: OutputFormat, number: nat) -> Seq<Seq<char>> {
    let docs = doc_lines(field.docs@);
    let head = output_head(field, f, number);
    let first = if docs.len() == 0 {
        seq![head]
    } else {
        seq![head + (": "@ + docs[0])] + Seq::new(
            (docs.len() - 1) as nat,
            |i: int| "   "@ + docs[i + 1],
        )
    };
    let values = match variants_text(field.type_ir, f) {
        Some(v) => seq!["   Valid values: "@ + v],
        None => Seq::empty(),
    };
    let shape = if simple_output(field.type_ir) {
        Seq::empty()
    } else {
        seq!["   Schema:"@] + previews::node(
            field.type_ir,
            f,
            5,
            previews::MAX_DEPTH as nat,
            Seq::empty(),
        )
    };
    (first + values + shape).push(Seq::empty())
}

fn push_output(out: &mut Vec<String>, field: &FieldSchema, f: &OutputFormat, number: u64)
    ensures
        text::views(final(out)@) == text::views(old(out)@) + output_lines(
            *field,
            *f,
            number as nat,
        ),
{
    let ghost start = text::views(out@);
    let docs = doc_lines_of(field.docs.as_str());
    let ghost shown = doc_lines(field.docs@);
    let ghost head_text = output_head(*field, *f, number as nat);
    let mut head = text::decimal_string(number);
    head.append(". `");
    head.append(field.lm_name.as_str());
    head.append("` (");
    let kind = types::type_label(&field.type_ir, f);
    head.append(kind.as_str());
    head.append(")");
    proof {
        assert(shown.len() == docs@.len());
    }
    let ghost mut first: Seq<Seq<char>> = Seq::empty();
    if docs.len() == 0 {
        text::push_line(out, head);
        proof {
            first = seq![head_text];
            assert(text::views(out@) =~= start + first);
        }
    } else {
        proof {
            assert(docs@[0]@ == shown[0]);
        }
        head.append(": ");
        head.append(docs[0].as_str());
        proof {
            assert(head@ =~= head_text + (": "@ + shown[0]));
        }
        text::push_line(out, head);
        let ghost rest = Seq::new((shown.len() - 1) as nat, |i: int| "   "@ + shown[i + 1]);
        let ghost top = seq![head_text + (": "@ + shown[0])];
        let mut i: usize = 1;
        proof {
            assert(text::views(out@) =~= start + top + rest.take(0));
        }
        while i < docs.len()
            invariant
                1 <= i <= docs@.len(),
                shown == text::views(docs@),
                rest == Seq::new((shown.len() - 1) as nat, |i: int| "   "@ + shown[i + 1]),
                text::views(out@) == start + top + rest.take(i - 1),
            decreases docs@.len() - i,
        {
            let mut line = "   ".to_owned();
            line.append(docs[i].as_str());
            let ghost before = text::views(out@);
            text::push_line(out, line);
            i += 1;
            proof {
                assert(rest[i - 2] == "   "@ + shown[i - 1]);
                assert(text::views(out@) =~= start + top + rest.take(i - 1));
            }
        }
        proof {
            first = top + rest;
            assert(rest.take(i - 1) =~= rest);
            assert(text::views(out@) =~= start + first);
        }
    }
    let ghost values = match variants_text(field.type_ir, *f) {
        Some(v) => seq!["   Valid values: "@ + v],
        None => Seq::empty(),
    };
    match enum_variants_line(&field.type_ir, f) {
        Some(v) => {
            let mut line = "   Valid values: ".to_owned();
            line.append(v.as_str());
            text::push_line(out, line);
        },
        None => {},
    }
    proof {
        assert(text::views(out@) =~= start + first + values);
    }
    let ghost shape = if simple_output(field.type_ir) {
        Seq::empty()
    } else {
        seq!["   Schema:"@] + previews::node(
            field.type_ir,
            *f,
            5,
            previews::MAX_DEPTH as nat,
            Seq::empty(),
        )
    };
    if !is_simple_output_type(&field.type_ir) {
        text::push_line(out, "   Schema:".to_owned());
        let lines = previews::render_type_shape(&field.type_ir, f, 5);
        text::push_lines(out, lines);
    }
    proof {
        assert(text::views(out@) =~= start + first + values + shape);
    }
    text::push_line(out, String::new());
    proof {
        assert(text::views(out@) =~= start + (first + values + shape).push(Seq::empty()));
    }
}

/// The lines of the first `n` output fields.
pub open spec fn outputs_lines(fields: Seq<FieldSchema>, n: nat, f: OutputFormat) -> Seq<Seq<char>>
    decreases n,
{
    if n == 0 || n > fields.len() {
        Seq::empty()
    } else {
        outputs_lines(fields, (n - 1) as nat, f) + output_lines(fields[n - 1], f, n)
    }
}

/// The names of fields, each with a text around it, separated by commas.
pub open spec fn field_list(fields: Seq<FieldSchema>, suffix: Seq<char>) -> Seq<char> {
    text::join(Seq::new(fields.len(), |i: int| fields[i].lm_name@ + suffix), ", "@)
}

pub fn field_list_of(fields: &Vec<FieldSchema>, suffix: &str) -> (r: String)
    ensures
        r@ == field_list(fields@, suffix@),
{
    let mut shown: Vec<String> = Vec::new();
    let mut i: usize = 0;
    while i < fields.len()
        invariant
            i <= fields@.len(),
            shown@.len() == i,
            forall|k: int| 0 <= k < i ==> (#[trigger] shown@[k])@ == fields@[k].lm_name@ + suffix@,
        decreases fields@.len() - i,
    {
        let mut item = fields[i].lm_name.clone();
        item.append(suffix);
        shown.push(item);
        i += 1;
    }
    proof {
        assert(text::views(shown@) =~= Seq::new(
            fields@.len(),
            |i: int| fields@[i].lm_name@ + suffix@,
        ));
    }
    text::join_strs(&shown, ", ")
}

pub open spec fn constraint_line(field: FieldSchema, c: Constraint) -> Seq<char> {
    "- `"@ + field.lm_name@ + "`: "@ + (match c.kind {
        ConstraintKind::Check => "\u{26a0} soft"@,
        ConstraintKind::Assert => "\u{274c} hard"@,
    }) + " - "@ + c.label@ + " ("@ + c.expression@ + ")"@
}

/// The lines of the constraints of a field.
pub open spec fn field_constraints(field: FieldSchema) -> Seq<Seq<char>> {
    Seq::new(field.constraints@.len(), |i: int| constraint_line(field, field.constraints@[i]))
}

/// The lines of the constraints of the first `n` fields.
pub open spec fn all_constraints(fields: Seq<FieldSchema>, n: nat) -> Seq<Seq<char>>
    decreases n,
{
    if n == 0 || n > fields.len() {
        Seq::empty()
    } else {
        all_constraints(fields, (n - 1) as nat) + field_constraints(fields[n - 1])
    }
}

fn push_constraints(out: &mut Vec<String>, field: &FieldSchema)
    ensures
        text::views(final(out)@) == text::views(old(out)@) + field_constraints(*field),
{
    let ghost lines = field_constraints(*field);
    let mut i: usize = 0;
    proof {
        assert(text::views(out@) =~= text::views(old(out)@) + lines.take(0));
    }
    while i < field.constraints.len()
        invariant
            i <= field.constraints@.len(),
            lines == field_constraints(*field),
            text::views(out@) == text::views(old(out)@) + lines.take(i as int),
        decreases field.constraints@.len() - i,
    {
        let c = &field.constraints[i];
        let mut line = "- `".to_owned();
        line.append(field.lm_name.as_str());
        line.append("`: ");
        match c.kind {
            ConstraintKind::Check => line.append("\u{26a0} soft"),
            ConstraintKind::Assert => line.append("\u{274c} hard"),
        }
        line.append(" - ");
        line.append(c.label.as_str());
        line.append(" (");
        line.append(c.expression.as_str());
        line.append(")");
        let ghost before = text::views(out@);
        text::push_line(out, line);
        i += 1;
        proof {
            assert(text::views(out@) == before.push(lines[i - 1]));
            assert(text::views(out@) =~= text::views(old(out)@) + lines.take(i as int));
        }
    }
    proof {
        assert(lines.take(i as int) =~= lines);
    }
}

/// The lines between the input variables and the output fields.
pub open spec fn schema_heading() -> Seq<Seq<char>> {
    seq![
        ""@,
        "## Output Schema"@,
        "Call SUBMIT() with the following fields when you have your answer:"@,
        ""@,
        "Your output fields are:"@,
    ]
}

/// The lines on tools and guidelines, up to the constraints.
pub open spec fn guidance() -> Seq<Seq<char>> {
    seq![
        ""@,
        "## Available Tools"@,
        "Available in the REPL:"@,
        "- Input variables accessible directly by name"@,
        "- `llm_query(prompt)` \u{2014} ask a sub-model to analyze text. processed outside your context window, so large inputs won't crowd your reasoning."@,
        "- `llm_query_batched(prompts)` \u{2014} batch query concurrently"@,
        "- `SUBMIT(field1=value1, ...)` \u{2014} submit final answer"@,
        "- `print()` \u{2014} ALWAYS print to see results"@,
        "- Standard libraries available (import as needed)"@,
        "Plus any user-provided tools with their descriptions."@,
        ""@,
        "## Guidelines"@,
        "Response format contract:"@,
        "- Output code only."@,
        "- No prose."@,
        "- No markdown fences."@,
        "- If needed, put reasoning only in Python comments."@,
        ""@,
        "1. EXPLORE FIRST - Look at your data before processing it."@,
        "2. ITERATE - Write small code snippets, observe, decide next steps."@,
        "3. VERIFY BEFORE SUBMITTING - If results seem wrong, reconsider."@,
        "4. STRING OPS FOR SYNTAX, llm_query FOR MEANING \u{2014} they interleave freely. The mistake is using one where the other belongs."@,
        "5. ACCUMULATE UNDERSTANDING \u{2014} use named variables to build your evolving model of the problem, not just cache results."@,
        "6. SUBMIT ONLY AFTER SEEING OUTPUTS \u{2014} verify your answer looks right before calling SUBMIT."@,
        ""@,
        "## Constraints"@,
        "- Soft checks use \u{26a0}. Hard assertions use \u{274c}."@,
    ]
}

fn push_schema_heading(out: &mut Vec<String>)
    ensures
        text::views(final(out)@) == text::views(old(out)@) + schema_heading(),
{
    let lines = [
        "",
        "## Output Schema",
        "Call SUBMIT() with the following fields when you have your answer:",
        "",
        "Your output fields are:",
    ];
    proof {
        assert(text::str_views(lines@) =~= schema_heading());
    }
    text::push_strs(out, &lines);
}

fn push_guidance(out: &mut Vec<String>)
    ensures
        text::views(final(out)@) == text::views(old(out)@) + guidance(),
{
    let lines = [
        "",
        "## Available Tools",
        "Available in the REPL:",
        "- Input variables accessible directly by name",
        "- `llm_query(prompt)` \u{2014} ask a sub-model to analyze text. processed outside your context window, so large inputs won't crowd your reasoning.",
        "- `llm_query_batched(prompts)` \u{2014} batch query concurrently",
        "- `SUBMIT(field1=value1, ...)` \u{2014} submit final answer",
        "- `print()` \u{2014} ALWAYS print to see results",
        "- Standard libraries available (import as needed)",
        "Plus any user-provided tools with their descriptions.",
        "",
        "## Guidelines",
        "Response format contract:",
        "- Output code only.",
        "- No prose.",
        "- No markdown fences.",
        "- If needed, put reasoning only in Python comments.",
        "",
        "1. EXPLORE FIRST - Look at your data before processing it.",
        "2. ITERATE - Write small code snippets, observe, decide next steps.",
        "3. VERIFY BEFORE SUBMITTING - If results seem wrong, reconsider.",
        "4. STRING OPS FOR SYNTAX, llm_query FOR MEANING \u{2014} they interleave freely. The mistake is using one where the other belongs.",
        "5. ACCUMULATE UNDERSTANDING \u{2014} use named variables to build your evolving model of the problem, not just cache results.",
        "6. SUBMIT ONLY AFTER SEEING OUTPUTS \u{2014} verify your answer looks right before calling SUBMIT.",
        "",
        "## Constraints",
        "- Soft checks use \u{26a0}. Hard assertions use \u{274c}.",
    ];
    proof {
        assert(text::str_views(lines@) =~= guidance());
    }
    text::push_strs(out, &lines);
}

/// What is said of the input variables.
pub open spec fn inputs_text(variable_schemas: Seq<char>) -> Seq<char> {
    if text::is_blank(variable_schemas) {
        "(No complex input variables.)"@
    } else {
        text::trim(variable_schemas)
    }
}

/// The lines of the instruction of the acting model.
pub open spec fn action_lines(
    schema: SignatureSchema,
    task: Seq<char>,
    variable_schemas: Seq<char>,
) -> Seq<Seq<char>> {
    let fields = schema.output_fields@;
    let constraints = all_constraints(fields, fields.len());
    seq!["## Task"@, task, ""@, "## Input Variables"@, inputs_text(variable_schemas)]
        + schema_heading() + outputs_lines(fields, fields.len(), schema.output_format) + seq![
        "When final, call SUBMIT("@ + field_list(fields, "=..."@) + ")."@,
    ] + guidance() + (if constraints.len() == 0 {
        seq!["- No explicit soft checks or hard assertions for this signature."@]
    } else {
        constraints
    }) + seq![""@, PATTERNS_BLOCK@]
}

/// The instruction of the acting model.
pub fn render_action_instruction(
    schema: &SignatureSchema,
    instruction_override: Option<&str>,
    variable_schemas: &str,
) -> (r: String)
    ensures
        r@ == text::join(
            action_lines(
                *schema,
                task_text(*schema, override_view(instruction_override)),
                variable_schemas@,
            ),
            "\n"@,
        ),
{
    let task = task_of(schema, instruction_override);
    let ghost task_view = task@;
    let fields = &schema.output_fields;
    let mut lines: Vec<String> = Vec::new();
    text::push_line(&mut lines, "## Task".to_owned());
    text::push_line(&mut lines, task);
    text::push_line(&mut lines, "".to_owned());
    text::push_line(&mut lines, "## Input Variables".to_owned());
    if text::blank(variable_schemas) {
        text::push_line(&mut lines, "(No complex input variables.)".to_owned());
    } else {
        text::push_line(&mut lines, text::trim_str(variable_schemas));
    }
    let ghost head = seq![
        "## Task"@,
        task_view,
        ""@,
        "## Input Variables"@,
        inputs_text(variable_schemas@),
    ];
    proof {
        assert(text::views(lines@) =~= head);
    }
    push_schema_heading(&mut lines);
    let ghost before = text::views(lines@);
    let n = fields.len();
    let mut i: usize = 0;
    proof {
        assert(before =~= before + outputs_lines(fields@, 0, schema.output_format));
    }
    while i < n
        invariant
            i <= n,
            n == fields@.len(),
            text::views(lines@) == before + outputs_lines(
                fields@,
                i as nat,
                schema.output_format,
            ),
        decreases n - i,
    {
        push_output(&mut lines, &fields[i], &schema.output_format, (i + 1) as u64);
        i += 1;
        proof {
            assert(text::views(lines@) =~= before + outputs_lines(
                fields@,
                i as nat,
                schema.output_format,
            ));
        }
    }
    let mut submit = "When final, call SUBMIT(".to_owned();
    let assignments = field_list_of(fields, "=...");
    submit.append(assignments.as_str());
    submit.append(").");
    text::push_line(&mut lines, submit);
    push_guidance(&mut lines);
    let ghost ruled = text::views(lines@);
    let mut any: bool = false;
    let mut k: usize = 0;
    proof {
        assert(ruled =~= ruled + all_constraints(fields@, 0));
    }
    while k < n
        invariant
            k <= n,
            n == fields@.len(),
            any == (all_constraints(fields@, k as nat).len() > 0),
            text::views(lines@) == ruled + all_constraints(fields@, k as nat),
        decreases n - k,
    {
        push_constraints(&mut lines, &fields[k]);
        if fields[k].constraints.len() > 0 {
            any = true;
        }
        k += 1;
        proof {
            assert(text::views(lines@) =~= ruled + all_constraints(fields@, k as nat));
        }
    }
    let ghost constraints = all_constraints(fields@, fields@.len());
    if !any {
        text::push_line(
            &mut lines,
            "- No explicit soft checks or hard assertions for this signature.".to_owned(),
        );
    }
    let ghost closing = if constraints.len() == 0 {
        seq!["- No explicit soft checks or hard assertions for this signature."@]
    } else {
        constraints
    };
    proof {
        assert(text::views(lines@) =~= ruled + closing);
    }
    text::push_line(&mut lines, "".to_owned());
    text::push_line(&mut lines, PATTERNS_BLOCK.to_owned());
    proof {
        assert(text::views(lines@) =~= action_lines(*schema, task_view, variable_schemas@));
    }
    text::join_strs(&lines, "\n")
}

/// The instruction of the extracting model.
pub open spec fn extract_text(
    schema: SignatureSchema,
    instruction_override: Option<Seq<char>>,
) -> Seq<char> {
    text::join(
        seq![
            "The following REPL session was generated for this "@ + "task:"@,
            task_text(schema, instruction_override),
            ""@,
            "Based on the execution history, extract the final outputs. Review what was computed and provide the best answer from the trajectory."@,
        ],
        "\n"@,
    )
}

/// The instruction of the extracting model.
pub fn render_extract_instruction(
    schema: &SignatureSchema,
    instruction_override: Option<&str>,
) -> (r: String)
    ensures
        r@ == extract_text(*schema, override_view(instruction_override)),
{
    let task = task_of(schema, instruction_override);
    let ghost shown = task@;
    let mut lines: Vec<String> = Vec::new();
    let mut opening = "The following REPL session was generated for this ".to_owned();
    opening.append("task:");
    text::push_line(&mut lines, opening);
    text::push_line(&mut lines, task);
    text::push_line(&mut lines, "".to_owned());
    text::push_line(
        &mut lines,
        "Based on the execution history, extract the final outputs. Review what was computed and provide the best answer from the trajectory.".to_owned(),
    );
    proof {
        assert(text::views(lines@) =~= seq![
            "The following REPL session was generated for this "@ + "task:"@,
            shown,
            ""@,
            "Based on the execution history, extract the final outputs. Review what was computed and provide the best answer from the trajectory."@,
        ]);
    }
    text::join_strs(&lines, "\n")
}

proof fn lemma_line(lines: Seq<Seq<char>>, k: int, part: Seq<char>)
    requires
        0 <= k < lines.len(),
        text::has_text(lines[k], part),
    ensures
        text::has_text(text::join(lines, "\n"@), part),
{
    text_laws::lemma_join_at(lines, "\n"@, k);
    assert(text::has_text(text::join(lines, "\n"@), lines[k]));
    text_laws::lemma_within(text::join(lines, "\n"@), lines[k], part);
}

proof fn lemma_output_lines(fields: Seq<FieldSchema>, n: nat, f: OutputFormat, i: int) -> (k: int)
    requires
        0 <= i < n <= fields.len(),
    ensures
        0 <= k < outputs_lines(fields, n, f).len(),
        text::has_prefix(
            outputs_lines(fields, n, f)[k],
            text::decimal((i + 1) as nat) + ". `"@ + fields[i].lm_name@ + "` ("@ + types::label(
                fields[i].type_ir,
                f,
            ) + ")"@,
        ),
    decreases n,
{
    let before = outputs_lines(fields, (n - 1) as nat, f);
    if i == n - 1 {
        let head = output_head(fields[i], f, n);
        let docs = doc_lines(fields[i].docs@);
        assert(outputs_lines(fields, n, f)[before.len() as int] == output_lines(fields[i], f, n)[0]);
        if docs.len() > 0 {
            text_laws::lemma_ends(head, ": "@ + docs[0]);
        } else {
            assert(head.subrange(0, head.len() as int) =~= head);
        }
        before.len() as int
    } else {
        lemma_output_lines(fields, (n - 1) as nat, f, i)
    }
}

proof fn lemma_constraints(fields: Seq<FieldSchema>, n: nat, i: int, j: int) -> (k: int)
    requires
        0 <= i < n <= fields.len(),
        0 <= j < fields[i].constraints@.len(),
    ensures
        0 <= k < all_constraints(fields, n).len(),
        all_constraints(fields, n)[k] == constraint_line(fields[i], fields[i].constraints@[j]),
    decreases n,
{
    let before = all_constraints(fields, (n - 1) as nat);
    if i == n - 1 {
        before.len() + j
    } else {
        lemma_constraints(fields, (n - 1) as nat, i, j)
    }
}

proof fn lemma_constraint_line(field: FieldSchema, c: Constraint)
    ensures
        text::has_suffix(constraint_line(field, c), c.label@ + " ("@ + c.expression@ + ")"@),
        text::has_prefix(constraint_line(field, c), "- `"@ + field.lm_name@ + "`: "@),
{
    let kind = match c.kind {
        ConstraintKind::Check => "\u{26a0} soft"@,
        ConstraintKind::Assert => "\u{274c} hard"@,
    };
    let p = "- `"@ + field.lm_name@ + "`: "@;
    let front = p + kind + " - "@;
    let l = c.label@;
    let x = c.expression@;
    text_laws::lemma_grouped(front, l, " ("@);
    text_laws::lemma_grouped(front, l + " ("@, x);
    text_laws::lemma_grouped(front, l + " ("@ + x, ")"@);
    text_laws::lemma_ends(front, l + " ("@ + x + ")"@);
    text_laws::lemma_grouped(p, kind, " - "@);
    text_laws::lemma_grouped(p, kind + " - "@, l + " ("@ + x + ")"@);
    text_laws::lemma_ends(p, kind + " - "@ + (l + " ("@ + x + ")"@));
}

/// The instruction of the acting model gives the task, what is known of the input variables, and
/// each output field with its number, its name and its type.
pub proof fn the_acting_model_reads_task_and_fields(
    schema: &SignatureSchema,
    instruction_override: Option<&str>,
    variable_schemas: &str,
    r: String,
    i: int,
)
    requires
        call_ensures(
            render_action_instruction,
            (schema, instruction_override, variable_schemas),
            r,
        ),
    ensures
        instruction_override is Some ==> text::has_text(
            r@,
            text::trim(instruction_override->0@),
        ),
        instruction_override is None ==> text::has_text(r@, text::trim(schema.instruction@)),
        !text::is_blank(variable_schemas@) ==> text::has_text(r@, text::trim(variable_schemas@)),
        0 <= i < schema.output_fields@.len() ==> text::has_text(
            r@,
            text::decimal((i + 1) as nat) + ". `"@ + schema.output_fields@[i].lm_name@ + "` ("@
                + types::label(schema.output_fields@[i].type_ir, schema.output_format) + ")"@,
        ),
        0 <= i < schema.output_fields@.len() ==> text::has_text(
            r@,
            schema.output_fields@[i].lm_name@ + "=..."@,
        ),
{
    let task = task_text(*schema, override_view(instruction_override));
    let lines = action_lines(*schema, task, variable_schemas@);
    let fields = schema.output_fields@;
    text_laws::lemma_join_at(lines, "\n"@, 1);
    assert(lines[1] == task);
    assert(text::has_text(r@, lines[1]));
    if !text::is_blank(variable_schemas@) {
        text_laws::lemma_join_at(lines, "\n"@, 4);
        assert(lines[4] == text::trim(variable_schemas@));
        assert(text::has_text(r@, lines[4]));
    }
    if 0 <= i < fields.len() {
        let outs = outputs_lines(fields, fields.len(), schema.output_format);
        let k = lemma_output_lines(fields, fields.len(), schema.output_format, i);
        let want = text::decimal((i + 1) as nat) + ". `"@ + fields[i].lm_name@ + "` ("@
            + types::label(fields[i].type_ir, schema.output_format) + ")"@;
        assert(lines[10 + k] == outs[k]);
        assert(text::occurs_at(outs[k], want, 0));
        lemma_line(lines, 10 + k, want);
        let parts = Seq::new(fields.len(), |i: int| fields[i].lm_name@ + "=..."@);
        let list = field_list(fields, "=..."@);
        text_laws::lemma_join_at(parts, ", "@, i);
        assert(text::has_text(list, parts[i]));
        let call = "When final, call SUBMIT("@ + list + ")."@;
        text_laws::lemma_inside("When final, call SUBMIT("@, list, ")."@);
        text_laws::lemma_within(call, list, parts[i]);
        let at = (10 + outs.len()) as int;
        assert(lines[at] == call);
        lemma_line(lines, at, parts[i]);
    }
}

/// It is told of every constraint: the field, and what has to hold of it.
#[verifier::rlimit(40)]
pub proof fn the_acting_model_reads_every_constraint(
    schema: &SignatureSchema,
    instruction_override: Option<&str>,
    variable_schemas: &str,
    r: String,
    i: int,
    j: int,
)
    requires
        call_ensures(
            render_action_instruction,
            (schema, instruction_override, variable_schemas),
            r,
        ),
        0 <= i < schema.output_fields@.len(),
        0 <= j < schema.output_fields@[i].constraints@.len(),
    ensures
        text::has_text(r@, "- `"@ + schema.output_fields@[i].lm_name@ + "`: "@),
        text::has_text(
            r@,
            schema.output_fields@[i].constraints@[j].label@ + " ("@
                + schema.output_fields@[i].constraints@[j].expression@ + ")"@,
        ),
{
    let task = task_text(*schema, override_view(instruction_override));
    let lines = action_lines(*schema, task, variable_schemas@);
    let fields = schema.output_fields@;
    let c = fields[i].constraints@[j];
    let outs = outputs_lines(fields, fields.len(), schema.output_format);
    let all = all_constraints(fields, fields.len());
    let k = lemma_constraints(fields, fields.len(), i, j);
    lemma_constraint_line(fields[i], c);
    let at = (10 + outs.len() + 1 + guidance().len()) as int + k;
    assert(lines[at] == all[k]);
    let p = "- `"@ + fields[i].lm_name@ + "`: "@;
    let s = c.label@ + " ("@ + c.expression@ + ")"@;
    assert(text::occurs_at(all[k], p, 0));
    assert(text::occurs_at(all[k], s, all[k].len() - s.len()));
    lemma_line(lines, at, p);
    lemma_line(lines, at, s);
}

/// The extracting model is given the same task.
pub proof fn the_extracting_model_reads_the_task(
    schema: &SignatureSchema,
    instruction_override: Option<&str>,
    r: String,
)
    requires
        call_ensures(render_extract_instruction, (schema, instruction_override), r),
    ensures
        instruction_override is Some ==> text::has_text(
            r@,
            text::trim(instruction_override->0@),
        ),
        instruction_override is None ==> text::has_text(r@, text::trim(schema.instruction@)),
{
    let task = task_text(*schema, override_view(instruction_override));
    let lines = seq![
        "The following REPL session was generated for this "@ + "task:"@,
        task,
        ""@,
        "Based on the execution history, extract the final outputs. Review what was computed and provide the best answer from the trajectory."@,
    ];
    text_laws::lemma_join_at(lines, "\n"@, 1);
    assert(text::has_text(r@, lines[1]));
}

} // verus!
