//! What a model is told at the start of a turn, and what becomes of the code that it writes.

use indexmap::IndexMap;
use vstd::prelude::*;

use crate::chat::{Chat, PredictError};
use crate::modules::rlm::metadata::FieldMeta;
use crate::modules::rlm::namespace;
use crate::modules::rlm::namespace::{collect_namespace_snapshot, PyShown};
use crate::modules::rlm::submit::{SubmitError, SubmitResultDyn};
use crate::modules::rlm::values;
use crate::modules::rlm::values::{BamlValue, BamlView};
use crate::text;
use crate::text_laws;

verus! {

/// How much of a reply is shown when nothing could be made of it.
pub const MAX_RECOVERABLE_PARSE_SNIPPET_CHARS: usize = 80;

/// What became of the code of a turn.
#[allow(inconsistent_fields)]
#[derive(Debug)]
pub enum ExecOutcome {
    Continue { output: String },
    SubmitAccepted { value: BamlValue, field_meta: IndexMap<String, FieldMeta> },
    SubmitValidationError { message: String, errors: Vec<String>, raw_output: String },
    SubmitAssertionFailed { label: String, expression: String, raw_output: String },
    PythonException { message: String },
    RecoverableParse { message: String },
}

/// What a turn is for.
#[derive(Clone, Copy, Debug, PartialEq, Eq, Structural)]
pub enum TurnDecision {
    Continue,
    Finalization,
    Fallback,
}

/// The last of the turns is for the answer, and what comes behind it is the fallback.
pub open spec fn turn_policy(turn_index: nat, max_iterations: nat) -> TurnDecision {
    if turn_index < max_iterations {
        TurnDecision::Continue
    } else if turn_index == max_iterations {
        TurnDecision::Finalization
    } else {
        TurnDecision::Fallback
    }
}

pub fn decide_turn_policy(turn_index: usize, max_iterations: usize) -> (r: TurnDecision)
    ensures
        r == turn_policy(turn_index as nat, max_iterations as nat),
{
    if turn_index < max_iterations {
        TurnDecision::Continue
    } else if turn_index == max_iterations {
        TurnDecision::Finalization
    } else {
        TurnDecision::Fallback
    }
}

/// What became of code, by how it ran and what it handed in. What was handed in decides.
pub open spec fn outcome(
    exec_result: Result<String, String>,
    submit_result: Option<SubmitResultDyn>,
) -> ExecOutcome {
    match submit_result {
        Some(handed_in) => {
            let printed = match exec_result {
                Ok(output) => output,
                Err(message) => message,
            };
            match handed_in {
                Ok(v) => ExecOutcome::SubmitAccepted { value: v.0, field_meta: v.1 },
                Err(SubmitError::ValidationError { message, errors }) =>
                    ExecOutcome::SubmitValidationError { message, errors, raw_output: printed },
                Err(SubmitError::AssertionFailed { label, expression }) =>
                    ExecOutcome::SubmitAssertionFailed { label, expression, raw_output: printed },
            }
        },
        None => match exec_result {
            Ok(output) => ExecOutcome::Continue { output },
            Err(message) => ExecOutcome::PythonException { message },
        },
    }
}

pub fn classify_exec_outcome(
    exec_result: Result<String, String>,
    submit_result: Option<SubmitResultDyn>,
) -> (r: ExecOutcome)
    ensures
        r == outcome(exec_result, submit_result),
{
    match submit_result {
        Some(handed_in) => {
            let raw_output = match exec_result {
                Ok(output) => output,
                Err(message) => message,
            };
            match handed_in {
                Ok((value, field_meta)) => ExecOutcome::SubmitAccepted { value, field_meta },
                Err(SubmitError::ValidationError { message, errors }) =>
                    ExecOutcome::SubmitValidationError { message, errors, raw_output },
                Err(SubmitError::AssertionFailed { label, expression }) =>
                    ExecOutcome::SubmitAssertionFailed { label, expression, raw_output },
            }
        },
        None => match exec_result {
            Ok(output) => ExecOutcome::Continue { output },
            Err(message) => ExecOutcome::PythonException { message },
        },
    }
}

/// What an outcome leaves to be read. What the code printed comes before anything said of it.
pub open spec fn raw_output(o: ExecOutcome) -> Seq<char> {
    match o {
        ExecOutcome::Continue { output } => output@,
        ExecOutcome::SubmitAccepted { .. } => Seq::empty(),
        ExecOutcome::SubmitValidationError { message, errors, raw_output } => if raw_output@.len()
            > 0 {
            raw_output@
        } else if errors@.len() == 0 {
            message@
        } else {
            message@ + "\n"@ + text::join(text::views(errors@), "\n"@)
        },
        ExecOutcome::SubmitAssertionFailed { label, expression, raw_output } =>
            if raw_output@.len() > 0 {
            raw_output@
        } else {
            "Submit assertion failed: `"@ + label@ + "` ("@ + expression@ + ")"@
        },
        ExecOutcome::PythonException { message } => message@,
        ExecOutcome::RecoverableParse { message } => message@,
    }
}

pub fn outcome_to_raw_output(outcome: &ExecOutcome) -> (r: String)
    ensures
        r@ == raw_output(*outcome),
{
    match outcome {
        ExecOutcome::Continue { output } => output.clone(),
        ExecOutcome::SubmitAccepted { .. } => String::new(),
        ExecOutcome::SubmitValidationError { message, errors, raw_output } => {
            if !raw_output.as_str().is_empty() {
                return raw_output.clone();
            }
            if errors.len() == 0 {
                return message.clone();
            }
            let mut out = message.clone();
            out.append("\n");
            let joined = text::join_strs(errors, "\n");
            out.append(joined.as_str());
            out
        },
        ExecOutcome::SubmitAssertionFailed { label, expression, raw_output } => {
            if !raw_output.as_str().is_empty() {
                return raw_output.clone();
            }
            let mut out = "Submit assertion failed: `".to_owned();
            out.append(label.as_str());
            out.append("` (");
            out.append(expression.as_str());
            out.append(")");
            out
        },
        ExecOutcome::PythonException { message } => message.clone(),
        ExecOutcome::RecoverableParse { message } => message.clone(),
    }
}

/// What kind of reply an outcome is: code, an output, or an error.
pub open spec fn response_kind(o: ExecOutcome) -> Seq<char> {
    match o {
        ExecOutcome::SubmitAccepted { .. } => "submit"@,
        ExecOutcome::Continue { .. } => "code"@,
        _ => "error"@,
    }
}

pub fn predict_response_kind_from_outcome(outcome: &ExecOutcome) -> (r: &'static str)
    ensures
        r@ == response_kind(*outcome),
{
    match outcome {
        ExecOutcome::SubmitAccepted { .. } => "submit",
        ExecOutcome::Continue { .. } => "code",
        ExecOutcome::SubmitValidationError { .. }
        | ExecOutcome::SubmitAssertionFailed { .. }
        | ExecOutcome::PythonException { .. }
        | ExecOutcome::RecoverableParse { .. } => "error",
    }
}

/// The name of an outcome.
pub open spec fn outcome_kind(o: ExecOutcome) -> Seq<char> {
    match o {
        ExecOutcome::Continue { .. } => "continue"@,
        ExecOutcome::SubmitAccepted { .. } => "submit_accepted"@,
        ExecOutcome::SubmitValidationError { .. } => "submit_validation_error"@,
        ExecOutcome::SubmitAssertionFailed { .. } => "submit_assertion_failed"@,
        ExecOutcome::PythonException { .. } => "python_exception"@,
        ExecOutcome::RecoverableParse { .. } => "recoverable_parse"@,
    }
}

pub fn exec_outcome_kind(outcome: &ExecOutcome) -> (r: &'static str)
    ensures
        r@ == outcome_kind(*outcome),
{
    match outcome {
        ExecOutcome::Continue { .. } => "continue",
        ExecOutcome::SubmitAccepted { .. } => "submit_accepted",
        ExecOutcome::SubmitValidationError { .. } => "submit_validation_error",
        ExecOutcome::SubmitAssertionFailed { .. } => "submit_assertion_failed",
        ExecOutcome::PythonException { .. } => "python_exception",
        ExecOutcome::RecoverableParse { .. } => "recoverable_parse",
    }
}

/// What the last turn printed, or what went wrong in it.
#[derive(Debug)]
pub struct PerceptionFeedback {
    pub stdout: Option<String>,
    pub stderr: Option<String>,
}

/// What is told of an outcome: on the first place what was printed, on the second what went
/// wrong.
pub open spec fn feedback_of(o: ExecOutcome) -> (Option<Seq<char>>, Option<Seq<char>>) {
    match o {
        ExecOutcome::Continue { output } => (
            if text::trim(output@).len() == 0 {
                None
            } else {
                Some(output@)
            },
            None,
        ),
        ExecOutcome::SubmitAccepted { .. } => (None, None),
        _ => (None, Some(raw_output(o))),
    }
}

impl View for PerceptionFeedback {
    type V = (Option<Seq<char>>, Option<Seq<char>>);

    open spec fn view(&self) -> (Option<Seq<char>>, Option<Seq<char>>) {
        (text::opt_view(self.stdout), text::opt_view(self.stderr))
    }
}

pub fn perception_feedback_from_outcome(outcome: &ExecOutcome) -> (r: PerceptionFeedback)
    ensures
        r@ == feedback_of(*outcome),
{
    match outcome {
        ExecOutcome::Continue { output } => {
            let trimmed = text::trim_str(output.as_str());
            let stdout = if trimmed.as_str().is_empty() {
                None
            } else {
                Some(output.clone())
            };
            PerceptionFeedback { stdout, stderr: None }
        },
        ExecOutcome::SubmitAccepted { .. } => PerceptionFeedback { stdout: None, stderr: None },
        ExecOutcome::SubmitValidationError { .. }
        | ExecOutcome::SubmitAssertionFailed { .. }
        | ExecOutcome::PythonException { .. }
        | ExecOutcome::RecoverableParse { .. } => {
            let message = outcome_to_raw_output(outcome);
            PerceptionFeedback { stdout: None, stderr: Some(message) }
        },
    }
}

/// What is told when a reply was empty.
pub open spec fn empty_reply_text(raw: Seq<char>, source: Seq<char>) -> Seq<char> {
    "Empty response from model ("@ + source
        + "). Write executable Python code. Raw response: len="@ + text::decimal(raw.len())
        + ", snippet="@ + text::debug_text(
        text::truncated(raw, MAX_RECOVERABLE_PARSE_SNIPPET_CHARS as nat),
    ) + "."@
}

pub fn format_empty_response_recovery_reason(raw_response: &str, source: &str) -> (r: String)
    ensures
        r@ == empty_reply_text(raw_response@, source@),
{
    let c = text::chars_of(raw_response);
    let total = c.len();
    let snippet = text::truncate_str(raw_response, MAX_RECOVERABLE_PARSE_SNIPPET_CHARS);
    let shown = text::debug_string(snippet.as_str());
    let mut out = "Empty response from model (".to_owned();
    out.append(source);
    out.append("). Write executable Python code. Raw response: len=");
    text::push_decimal(&mut out, total as u64);
    out.append(", snippet=");
    out.append(shown.as_str());
    out.append(".");
    out
}

/// The failure is one that a run goes on after: a reply of nothing but white space.
pub open spec fn is_recoverable(error: PredictError) -> bool {
    match error {
        PredictError::Parse { raw_response, .. } => text::trim(raw_response@).len() == 0,
        _ => false,
    }
}

/// What is told of a failure that a run goes on after, and the conversation up to it. `why` is how
/// the error of the reply reads.
pub fn recoverable_outcome_from_parse_error(error: &PredictError, why: &str) -> (r: Option<
    (String, Chat),
>)
    ensures
        r is Some == is_recoverable(*error),
        error matches PredictError::Parse { raw_response, chat, .. } ==> (r matches Some(
            found,
        ) ==> found.0@ == empty_reply_text(raw_response@, why@) && found.1.messages@
            == chat.messages@),
{
    match error {
        PredictError::Parse { raw_response, chat, .. } => {
            let trimmed = text::trim_str(raw_response.as_str());
            if trimmed.as_str().is_empty() {
                Some(
                    (
                        format_empty_response_recovery_reason(
                            raw_response.as_str(),
                            why,
                        ),
                        chat.clone(),
                    ),
                )
            } else {
                None
            }
        },
        _ => None,
    }
}

/// The fields of a value that has fields.
pub open spec fn fields_of(v: BamlView) -> Option<Seq<(Seq<char>, BamlView)>> {
    match v {
        BamlView::Class(_, fields) => Some(fields),
        BamlView::Dict(fields) => Some(fields),
        _ => None,
    }
}

/// The question that an input holds, without white space around it.
pub open spec fn question_in(v: BamlView) -> Option<Seq<char>> {
    match fields_of(v) {
        None => None,
        Some(fields) => {
            let i = values::field_index(fields, "question"@, 0);
            if i >= fields.len() {
                None
            } else {
                match fields[i].1 {
                    BamlView::Text(t) => if text::trim(t).len() == 0 {
                        None
                    } else {
                        Some(text::trim(t))
                    },
                    _ => None,
                }
            }
        },
    }
}

fn question_of(fields: &Vec<(String, BamlValue)>) -> (r: Option<String>)
    ensures
        text::opt_view(r) == question_in(BamlView::Dict(values::fields_view(fields@))),
{
    let i = values::find_field(fields, "question");
    if i >= fields.len() {
        return None;
    }
    proof {
        assert(values::fields_view(fields@)[i as int].1 == fields@[i as int].1@);
    }
    match &fields[i].1 {
        BamlValue::Text(t) => {
            let trimmed = text::trim_str(t.as_str());
            if trimmed.as_str().is_empty() {
                None
            } else {
                Some(trimmed)
            }
        },
        _ => None,
    }
}

/// The question that an input holds.
pub fn task_hint_from_input(input: &BamlValue) -> (r: Option<String>)
    ensures
        text::opt_view(r) == question_in(input@),
{
    match input {
        BamlValue::Class(name, fields) => {
            proof {
                values::lemma_class(*name, *fields);
            }
            question_of(fields)
        },
        BamlValue::Dict(fields) => {
            proof {
                values::lemma_dict(*fields);
            }
            question_of(fields)
        },
        _ => None,
    }
}

/// A block of what was printed, unless it is blank.
pub open spec fn printed_block(head: Seq<char>, t: Option<Seq<char>>) -> Seq<Seq<char>> {
    match t {
        Some(s) => if text::trim(s).len() == 0 {
            Seq::empty()
        } else {
            seq![""@, head, s]
        },
        None => Seq::empty(),
    }
}

pub open spec fn turns_text(budget: nat) -> Seq<char> {
    if budget == 1 {
        "1 turn"@
    } else {
        text::decimal(budget) + " turns"@
    }
}

/// The first `n` variables, one on a line.
pub open spec fn variable_rows(vars: Seq<(Seq<char>, Seq<char>)>) -> Seq<Seq<char>> {
    Seq::new(vars.len(), |i: int| vars[i].0 + " = "@ + vars[i].1)
}

/// What stands above the variables: what is left, the task on the first turn, what the last turn
/// came to, and a warning on the last one.
pub open spec fn perception_head(
    task_hint: Seq<char>,
    feedback: Option<(Option<Seq<char>>, Option<Seq<char>>)>,
    budget: nat,
    sub_lm: nat,
    first_turn: bool,
) -> Seq<Seq<char>> {
    seq!["[env] "@ + turns_text(budget) + " | "@ + text::decimal(sub_lm) + " sub-LLM calls"@] + (
    if first_turn {
        seq!["[query] "@ + text::truncated(task_hint, 180)]
    } else {
        Seq::empty()
    }) + (match feedback {
        Some(f) => printed_block("[stdout]"@, f.0) + printed_block("[stderr]"@, f.1),
        None => Seq::empty(),
    }) + (if budget == 1 {
        seq![""@, "⚠ LAST TURN — you MUST call SUBMIT() now with your best answer."@]
    } else {
        Seq::empty()
    })
}

/// What a model is told at the start of a turn.
pub open spec fn perception_lines(
    head: Seq<Seq<char>>,
    vars: Seq<(Seq<char>, Seq<char>)>,
    first_turn: bool,
) -> Seq<Seq<char>> {
    head + seq![
        ""@,
        if first_turn {
            "--- namespace ---"@
        } else {
            "--- namespace ("@ + text::decimal(vars.len()) + " names) ---"@
        },
    ] + variable_rows(vars) + seq![""@, ">>>"@]
}

/// What a model is told at the start of a turn, or why the variables cannot be shown.
pub open spec fn perception_text(
    roots: Seq<String>,
    globals: Seq<(String, PyShown)>,
    task_hint: Seq<char>,
    feedback: Option<(Option<Seq<char>>, Option<Seq<char>>)>,
    budget: nat,
    sub_lm: nat,
    first_turn: bool,
) -> Result<Seq<char>, Seq<char>> {
    match namespace::snapshot(roots, globals) {
        Ok(vars) => Ok(
            text::join(
                perception_lines(
                    perception_head(task_hint, feedback, budget, sub_lm, first_turn),
                    vars,
                    first_turn,
                ),
                "\n"@,
            ),
        ),
        Err(e) => Err(e),
    }
}

fn push_printed(lines: &mut Vec<String>, head: &str, t: &Option<String>)
    ensures
        text::views(final(lines)@) == text::views(old(lines)@) + printed_block(
            head@,
            text::opt_view(*t),
        ),
{
    let ghost start = text::views(lines@);
    match t {
        Some(s) => {
            let trimmed = text::trim_str(s.as_str());
            if !trimmed.as_str().is_empty() {
                text::push_line(lines, "".to_owned());
                text::push_line(lines, head.to_owned());
                text::push_line(lines, s.clone());
                proof {
                    assert(text::views(lines@) =~= start + seq![""@, head@, s@]);
                }
            } else {
                proof {
                    assert(text::views(lines@) =~= start + Seq::<Seq<char>>::empty());
                }
            }
        },
        None => {
            proof {
                assert(text::views(lines@) =~= start + Seq::<Seq<char>>::empty());
            }
        },
    }
}

fn perception_head_lines(
    task_hint: &str,
    feedback: Option<&PerceptionFeedback>,
    budget_remaining: usize,
    sub_lm_remaining: usize,
    first_turn: bool,
) -> (r: Vec<String>)
    ensures
        text::views(r@) == perception_head(
            task_hint@,
            match feedback {
                Some(f) => Some(f@),
                None => None,
            },
            budget_remaining as nat,
            sub_lm_remaining as nat,
            first_turn,
        ),
{
    let mut lines: Vec<String> = Vec::new();
    let mut env = "[env] ".to_owned();
    if budget_remaining == 1 {
        env.append("1 turn");
    } else {
        let count = text::decimal_string(budget_remaining as u64);
        let mut turns = count;
        turns.append(" turns");
        env.append(turns.as_str());
    }
    env.append(" | ");
    let calls = text::decimal_string(sub_lm_remaining as u64);
    env.append(calls.as_str());
    env.append(" sub-LLM calls");
    let ghost env_view = env@;
    text::push_line(&mut lines, env);
    proof {
        assert(text::views(lines@) =~= seq![env_view]);
    }
    let ghost at_query = text::views(lines@);
    if first_turn {
        let mut query = "[query] ".to_owned();
        let hint = text::truncate_str(task_hint, 180);
        query.append(hint.as_str());
        let ghost q = query@;
        text::push_line(&mut lines, query);
        proof {
            assert(text::views(lines@) =~= at_query + seq![q]);
        }
    } else {
        proof {
            assert(text::views(lines@) =~= at_query + Seq::<Seq<char>>::empty());
        }
    }
    let ghost at_feedback = text::views(lines@);
    match feedback {
        Some(f) => {
            push_printed(&mut lines, "[stdout]", &f.stdout);
            push_printed(&mut lines, "[stderr]", &f.stderr);
            proof {
                assert(text::views(lines@) =~= at_feedback + (printed_block("[stdout]"@, f@.0)
                    + printed_block("[stderr]"@, f@.1)));
            }
        },
        None => {
            proof {
                assert(text::views(lines@) =~= at_feedback + Seq::<Seq<char>>::empty());
            }
        },
    }
    let ghost at_warning = text::views(lines@);
    if budget_remaining == 1 {
        text::push_line(&mut lines, "".to_owned());
        text::push_line(
            &mut lines,
            "⚠ LAST TURN — you MUST call SUBMIT() now with your best answer.".to_owned(),
        );
        proof {
            assert(text::views(lines@) =~= at_warning + seq![
                ""@,
                "⚠ LAST TURN — you MUST call SUBMIT() now with your best answer."@,
            ]);
        }
    } else {
        proof {
            assert(text::views(lines@) =~= at_warning + Seq::<Seq<char>>::empty());
        }
    }
    lines
}

/// What a model is told at the start of a turn. `roots` are the names of the inputs, and
/// `globals` the variables of the interpreter.
pub fn build_perception_message(
    roots: &Vec<String>,
    globals: &Vec<(String, PyShown)>,
    task_hint: &str,
    feedback: Option<&PerceptionFeedback>,
    budget_remaining: usize,
    sub_lm_remaining: usize,
    first_turn: bool,
) -> (r: Result<String, String>)
    ensures
        namespace::result_view(r) == perception_text(
            roots@,
            globals@,
            task_hint@,
            match feedback {
                Some(f) => Some(f@),
                None => None,
            },
            budget_remaining as nat,
            sub_lm_remaining as nat,
            first_turn,
        ),
{
    let mut lines = perception_head_lines(
        task_hint,
        feedback,
        budget_remaining,
        sub_lm_remaining,
        first_turn,
    );
    let ghost head = text::views(lines@);
    let vars = match collect_namespace_snapshot(globals, roots) {
        Ok(v) => v,
        Err(e) => {
            return Err(e);
        },
    };
    let ghost shown = namespace::pairs_view(vars@);
    text::push_line(&mut lines, "".to_owned());
    let ghost title;
    if first_turn {
        proof {
            title = "--- namespace ---"@;
        }
        text::push_line(&mut lines, "--- namespace ---".to_owned());
    } else {
        let mut line = "--- namespace (".to_owned();
        let count = text::decimal_string(vars.len() as u64);
        line.append(count.as_str());
        line.append(" names) ---");
        proof {
            title = line@;
        }
        text::push_line(&mut lines, line);
    }
    let ghost above = head + seq![""@, title];
    let mut i: usize = 0;
    proof {
        assert(text::views(lines@) =~= above + variable_rows(shown).take(0));
    }
    while i < vars.len()
        invariant
            i <= vars@.len(),
            shown == namespace::pairs_view(vars@),
            text::views(lines@) == above + variable_rows(shown).take(i as int),
        decreases vars@.len() - i,
    {
        let mut line = vars[i].0.clone();
        line.append(" = ");
        line.append(vars[i].1.as_str());
        text::push_line(&mut lines, line);
        proof {
            assert(text::views(lines@) =~= above + variable_rows(shown).take(i + 1));
        }
        i += 1;
    }
    text::push_line(&mut lines, "".to_owned());
    text::push_line(&mut lines, ">>>".to_owned());
    proof {
        assert(variable_rows(shown).take(i as int) =~= variable_rows(shown));
        assert(text::views(lines@) =~= perception_lines(head, shown, first_turn));
    }
    Ok(text::join_strs(&lines, "\n"))
}

/// Turns go on up to the last one that is allowed, which is for the answer, and every turn behind
/// it is the fallback.
pub proof fn one_final_turn_before_the_fallback(turn_index: nat, max_iterations: nat)
    ensures
        turn_policy(turn_index, max_iterations) is Continue <==> turn_index + 1 <= max_iterations,
        turn_policy(turn_index, max_iterations) is Finalization <==> turn_index == max_iterations,
        turn_policy(turn_index, max_iterations) is Fallback <==> turn_index > max_iterations,
{
}

/// An output that was accepted counts, however the code ended that handed it in, and one that was
/// refused is told to the model as an error.
pub proof fn what_is_handed_in_decides(
    exec_result: Result<String, String>,
    submit_result: SubmitResultDyn,
)
    ensures
        submit_result matches Ok(v) ==> outcome(exec_result, Some(submit_result)) == (
        ExecOutcome::SubmitAccepted { value: v.0, field_meta: v.1 }),
        submit_result is Err ==> feedback_of(outcome(exec_result, Some(submit_result))).0 is None
            && feedback_of(outcome(exec_result, Some(submit_result))).1 is Some,
{
}

proof fn lemma_line_shown(lines: Seq<Seq<char>>, k: int)
    requires
        0 <= k < lines.len(),
    ensures
        text::occurs_at(text::join(lines, "\n"@), lines[k], text_laws::offset(lines, "\n"@, k)),
        text::has_text(text::join(lines, "\n"@), lines[k]),
{
    text_laws::lemma_join_at(lines, "\n"@, k);
}

/// At the start of a turn the model reads what the last one printed, below its mark.
pub proof fn what_was_printed_is_told(
    roots: &Vec<String>,
    globals: &Vec<(String, PyShown)>,
    task_hint: &str,
    feedback: &PerceptionFeedback,
    budget: usize,
    sub_lm: usize,
    first_turn: bool,
    r: String,
)
    requires
        call_ensures(
            build_perception_message,
            (roots, globals, task_hint, Some(feedback), budget, sub_lm, first_turn),
            Ok::<String, String>(r),
        ),
    ensures
        feedback.stdout is Some && text::trim(feedback.stdout->0@).len() > 0 ==> exists|a: int|
            #[trigger] text::occurs_at(r@, "[stdout]"@, a) && text::occurs_at(
                r@,
                feedback.stdout->0@,
                a + "[stdout]"@.len() + 1,
            ),
        feedback.stderr is Some && text::trim(feedback.stderr->0@).len() > 0 ==> exists|a: int|
            #[trigger] text::occurs_at(r@, "[stderr]"@, a) && text::occurs_at(
                r@,
                feedback.stderr->0@,
                a + "[stderr]"@.len() + 1,
            ),
{
    reveal_strlit("\n");
    let vars = namespace::snapshot(roots@, globals@)->Ok_0;
    let head = perception_head(
        task_hint@,
        Some(feedback@),
        budget as nat,
        sub_lm as nat,
        first_turn,
    );
    let lines = perception_lines(head, vars, first_turn);
    let front: int = if first_turn {
        2
    } else {
        1
    };
    let out = printed_block("[stdout]"@, feedback@.0);
    let err = printed_block("[stderr]"@, feedback@.1);
    if feedback.stdout is Some && text::trim(feedback.stdout->0@).len() > 0 {
        assert(lines[front + 1] == out[1]);
        assert(lines[front + 2] == out[2]);
        lemma_line_shown(lines, front + 1);
        lemma_line_shown(lines, front + 2);
        assert(text_laws::offset(lines, "\n"@, front + 2) == text_laws::offset(
            lines,
            "\n"@,
            front + 1,
        ) + lines[front + 1].len() + 1);
    }
    if feedback.stderr is Some && text::trim(feedback.stderr->0@).len() > 0 {
        let k = front + out.len();
        assert(lines[k + 1] == err[1]);
        assert(lines[k + 2] == err[2]);
        lemma_line_shown(lines, k + 1);
        lemma_line_shown(lines, k + 2);
        assert(text_laws::offset(lines, "\n"@, k + 2) == text_laws::offset(lines, "\n"@, k + 1)
            + lines[k + 1].len() + 1);
    }
}

proof fn lemma_env_line(turns: Seq<char>, sub_lm: Seq<char>, lines: Seq<Seq<char>>)
    requires
        lines.len() >= 2,
        lines[0] == "[env] "@ + turns + " | "@ + sub_lm + " sub-LLM calls"@,
    ensures
        text::has_prefix(text::join(lines, "\n"@), "[env] "@ + turns),
        text::has_text(text::join(lines, "\n"@), " | "@ + sub_lm + " sub-LLM calls"@),
{
    let r = text::join(lines, "\n"@);
    let p = "[env] "@ + turns;
    let calls = " | "@ + sub_lm + " sub-LLM calls"@;
    lemma_line_shown(lines, 0);
    text_laws::lemma_grouped(p, " | "@, sub_lm);
    text_laws::lemma_grouped(p, " | "@ + sub_lm, " sub-LLM calls"@);
    text_laws::lemma_ends(p, calls);
    text_laws::lemma_within(r, lines[0], calls);
    text_laws::lemma_join_front(lines, "\n"@);
    let rest = text::join(lines.skip(1), "\n"@);
    text_laws::lemma_grouped(lines[0], "\n"@, rest);
    text_laws::lemma_grouped(p, calls, "\n"@ + rest);
    text_laws::lemma_ends(p, calls + ("\n"@ + rest));
}

/// The model reads first how many turns and queries are left, and last where its code goes.
pub proof fn what_is_left_is_told(
    roots: &Vec<String>,
    globals: &Vec<(String, PyShown)>,
    task_hint: &str,
    feedback: Option<&PerceptionFeedback>,
    budget: usize,
    sub_lm: usize,
    first_turn: bool,
    r: String,
)
    requires
        call_ensures(
            build_perception_message,
            (roots, globals, task_hint, feedback, budget, sub_lm, first_turn),
            Ok::<String, String>(r),
        ),
    ensures
        budget != 1 ==> text::has_prefix(r@, "[env] "@ + (text::decimal(budget as nat) + " turns"@)),
        budget == 1 ==> text::has_prefix(r@, "[env] "@ + "1 turn"@),
        text::has_text(r@, " | "@ + text::decimal(sub_lm as nat) + " sub-LLM calls"@),
        text::has_suffix(r@, ">>>"@),
{
    let shown = match feedback {
        Some(f) => Some(f@),
        None => None,
    };
    let vars = namespace::snapshot(roots@, globals@)->Ok_0;
    let head = perception_head(task_hint@, shown, budget as nat, sub_lm as nat, first_turn);
    let lines = perception_lines(head, vars, first_turn);
    assert(lines[0] == head[0]);
    lemma_env_line(turns_text(budget as nat), text::decimal(sub_lm as nat), lines);
    assert(lines.last() == ">>>"@);
    text_laws::lemma_ends(text::join(lines.drop_last(), "\n"@) + "\n"@, ">>>"@);
}

/// On the first turn the model reads what the task is, and on the last one that it has to submit.
pub proof fn the_task_and_the_last_turn_are_told(
    roots: &Vec<String>,
    globals: &Vec<(String, PyShown)>,
    task_hint: &str,
    feedback: Option<&PerceptionFeedback>,
    budget: usize,
    sub_lm: usize,
    first_turn: bool,
    r: String,
)
    requires
        call_ensures(
            build_perception_message,
            (roots, globals, task_hint, feedback, budget, sub_lm, first_turn),
            Ok::<String, String>(r),
        ),
    ensures
        first_turn && task_hint@.len() <= 180 ==> text::has_text(r@, "[query] "@ + task_hint@),
        budget == 1 ==> text::has_text(
            r@,
            "⚠ LAST TURN — you MUST call SUBMIT() now with your best answer."@,
        ),
{
    let shown = match feedback {
        Some(f) => Some(f@),
        None => None,
    };
    let vars = namespace::snapshot(roots@, globals@)->Ok_0;
    let head = perception_head(task_hint@, shown, budget as nat, sub_lm as nat, first_turn);
    let lines = perception_lines(head, vars, first_turn);
    if budget == 1 {
        let k = head.len() - 1;
        assert(head[k] == "⚠ LAST TURN — you MUST call SUBMIT() now with your best answer."@);
        assert(lines[k] == head[k]);
        lemma_line_shown(lines, k);
    }
    if first_turn && task_hint@.len() <= 180 {
        assert(lines[1] == head[1]);
        lemma_line_shown(lines, 1);
    }
}

/// Every variable of the namespace is told, by its name and how it is shown.
pub proof fn every_variable_is_told(
    roots: &Vec<String>,
    globals: &Vec<(String, PyShown)>,
    task_hint: &str,
    feedback: Option<&PerceptionFeedback>,
    budget: usize,
    sub_lm: usize,
    first_turn: bool,
    r: String,
    variables: Vec<(String, String)>,
    i: int,
)
    requires
        call_ensures(
            build_perception_message,
            (roots, globals, task_hint, feedback, budget, sub_lm, first_turn),
            Ok::<String, String>(r),
        ),
        call_ensures(
            collect_namespace_snapshot,
            (globals, roots),
            Ok::<Vec<(String, String)>, String>(variables),
        ),
        0 <= i < variables@.len(),
    ensures
        text::has_text(r@, variables@[i].0@ + " = "@ + variables@[i].1@),
{
    let shown = match feedback {
        Some(f) => Some(f@),
        None => None,
    };
    let vars = namespace::snapshot(roots@, globals@)->Ok_0;
    let head = perception_head(task_hint@, shown, budget as nat, sub_lm as nat, first_turn);
    let lines = perception_lines(head, vars, first_turn);
    assert(vars == namespace::pairs_view(variables@));
    let k = head.len() + 2 + i;
    assert(lines[k] == variable_rows(vars)[i]);
    lemma_line_shown(lines, k);
}

/// What an outcome leaves to be read: what was printed where something was printed, and else
/// what went wrong, with each of the errors.
pub proof fn failures_say_what_went_wrong(outcome: &ExecOutcome, r: String, i: int)
    requires
        call_ensures(outcome_to_raw_output, (outcome,), r),
    ensures
        *outcome matches ExecOutcome::Continue { output } ==> r@ == output@,
        *outcome matches ExecOutcome::PythonException { message } ==> r@ == message@,
        *outcome matches ExecOutcome::RecoverableParse { message } ==> r@ == message@,
        *outcome matches ExecOutcome::SubmitValidationError { message, errors, raw_output } ==> (
        raw_output@.len() > 0 ==> r@ == raw_output@) && (raw_output@.len() == 0 ==> text::has_prefix(
            r@,
            message@,
        ) && (0 <= i < errors@.len() ==> text::has_text(r@, errors@[i]@))),
        *outcome matches ExecOutcome::SubmitAssertionFailed { label, expression, raw_output } ==> (
        raw_output@.len() > 0 ==> r@ == raw_output@) && (raw_output@.len() == 0 ==> text::has_text(
            r@,
            label@,
        ) && text::has_text(r@, expression@)),
{
    match *outcome {
        ExecOutcome::SubmitValidationError { message, errors, raw_output } => {
            if raw_output@.len() == 0 {
                if errors@.len() == 0 {
                    assert(r@.subrange(0, message@.len() as int) =~= message@);
                } else {
                    let parts = text::views(errors@);
                    let joined = text::join(parts, "\n"@);
                    text_laws::lemma_grouped(message@, "\n"@, joined);
                    text_laws::lemma_ends(message@, "\n"@ + joined);
                    text_laws::lemma_ends(message@ + "\n"@, joined);
                    if 0 <= i < errors@.len() {
                        lemma_line_shown(parts, i);
                        text_laws::lemma_within(r@, joined, parts[i]);
                    }
                }
            }
        },
        ExecOutcome::SubmitAssertionFailed { label, expression, raw_output } => {
            if raw_output@.len() == 0 {
                let front = "Submit assertion failed: `"@;
                text_laws::lemma_inside(front + label@ + "` ("@, expression@, ")"@);
                text_laws::lemma_grouped(front + label@, "` ("@, expression@);
                text_laws::lemma_grouped(front + label@, "` ("@ + expression@, ")"@);
                text_laws::lemma_inside(front, label@, "` ("@ + expression@ + ")"@);
            }
        },
        _ => {},
    }
}

/// What was printed and what went wrong stand in what the model is told.
pub proof fn lemma_feedback_is_told(
    roots: Seq<String>,
    globals: Seq<(String, PyShown)>,
    task_hint: Seq<char>,
    feedback: (Option<Seq<char>>, Option<Seq<char>>),
    budget: nat,
    sub_lm: nat,
    first_turn: bool,
    told: Seq<char>,
)
    requires
        perception_text(roots, globals, task_hint, Some(feedback), budget, sub_lm, first_turn)
            == Ok::<Seq<char>, Seq<char>>(told),
    ensures
        feedback.0 is Some && text::trim(feedback.0->0).len() > 0 ==> text::has_text(
            told,
            feedback.0->0,
        ),
        feedback.1 is Some && text::trim(feedback.1->0).len() > 0 ==> text::has_text(
            told,
            feedback.1->0,
        ),
{
    let vars = namespace::snapshot(roots, globals)->Ok_0;
    let head = perception_head(task_hint, Some(feedback), budget, sub_lm, first_turn);
    let lines = perception_lines(head, vars, first_turn);
    let front: int = if first_turn {
        2
    } else {
        1
    };
    let out = printed_block("[stdout]"@, feedback.0);
    let err = printed_block("[stderr]"@, feedback.1);
    if feedback.0 is Some && text::trim(feedback.0->0).len() > 0 {
        assert(lines[front + 2] == out[2]);
        lemma_line_shown(lines, front + 2);
    }
    if feedback.1 is Some && text::trim(feedback.1->0).len() > 0 {
        let k = front + out.len();
        assert(lines[k + 2] == err[2]);
        lemma_line_shown(lines, k + 2);
    }
}

/// Turns go on while there are some, the one behind the last of them is for the answer, and every
/// later one is the fallback.
pub proof fn turns_come_before_the_answer(turn_index: usize, max_iterations: usize, r: TurnDecision)
    requires
        call_ensures(decide_turn_policy, (turn_index, max_iterations), r),
    ensures
        r is Continue <==> turn_index < max_iterations,
        r is Finalization <==> turn_index == max_iterations,
        r is Fallback <==> turn_index > max_iterations,
{
}

/// What was handed in decides what became of a turn, with what it printed; where nothing was handed
/// in, it is an exception exactly where the code failed.
pub proof fn turns_are_told_apart_by_what_was_handed_in(
    exec_result: Result<String, String>,
    submit_result: Option<SubmitResultDyn>,
    r: ExecOutcome,
)
    requires
        call_ensures(classify_exec_outcome, (exec_result, submit_result), r),
    ensures
        submit_result matches Some(Ok(v)) ==> (r matches ExecOutcome::SubmitAccepted {
            value,
            field_meta,
        } && value == v.0 && field_meta == v.1),
        submit_result matches Some(Err(SubmitError::ValidationError { message, errors })) ==> (
        r matches ExecOutcome::SubmitValidationError { message: m, errors: e, raw_output } && m
            == message && e == errors && (exec_result matches Ok(o) ==> raw_output == o) && (
        exec_result matches Err(o) ==> raw_output == o)),
        submit_result matches Some(Err(SubmitError::AssertionFailed { label, expression })) ==> (
        r matches ExecOutcome::SubmitAssertionFailed { label: l, expression: e, raw_output } && l
            == label && e == expression && (exec_result matches Ok(o) ==> raw_output == o) && (
        exec_result matches Err(o) ==> raw_output == o)),
        submit_result is None ==> (exec_result matches Ok(o) ==> (r matches ExecOutcome::Continue {
            output,
        } && output == o)) && (exec_result matches Err(o) ==> (
        r matches ExecOutcome::PythonException { message } && message == o)),
{
}

proof fn lemma_first_field(
    fields: Seq<(Seq<char>, BamlView)>,
    name: Seq<char>,
    from: int,
    i: int,
)
    requires
        0 <= from <= i < fields.len(),
        fields[i].0 == name,
        forall|j: int| 0 <= j < i ==> (#[trigger] fields[j]).0 != name,
    ensures
        values::field_index(fields, name, from) == i,
    decreases i - from,
{
    if from < i {
        assert(fields[from].0 != name);
        lemma_first_field(fields, name, from + 1, i);
    }
}

/// The question of an input is the hint of the task, without the white space around it, unless
/// nothing else is in it.
pub proof fn questions_are_the_hint_of_the_task(
    input: &BamlValue,
    r: Option<String>,
    fields: Seq<(Seq<char>, BamlView)>,
    class: Seq<char>,
    i: int,
)
    requires
        call_ensures(task_hint_from_input, (input,), r),
        input@ == BamlView::Class(class, fields) || input@ == BamlView::Dict(fields),
        0 <= i < fields.len(),
        fields[i].0 == "question"@,
        forall|j: int| 0 <= j < i ==> (#[trigger] fields[j]).0 != "question"@,
    ensures
        fields[i].1 matches BamlView::Text(t) ==> if text::trim(t).len() == 0 {
            r is None
        } else {
            r is Some && r->0@ == text::trim(t)
        },
        !(fields[i].1 is Text) ==> r is None,
{
    lemma_first_field(fields, "question"@, 0, i);
}

} // verus!
